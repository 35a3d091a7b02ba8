//! What sending and receiving private notes comes to, over all notes, tags and stored bytes.
use vstd::arithmetic::power2::{lemma2_to64, lemma2_to64_rest, pow2};
use vstd::prelude::*;

use crate::bytes::{
    law_le_digits, law_le_is_what_was_read, le_bytes, le_value, length_at, length_bytes,
    lemma_le_bound, lemma_le_len,
};
use crate::collections::{
    law_present, lemma_picks_next, lemma_picks_none, lemma_picks_same, picks, present,
};
use crate::note::import::NoteFile;
use crate::note_transport::backfill::{
    covered_at, covered_bytes, has_history, is_tag_of, tag_bytes, tags_at, uncovered, NoteTagRecord,
};
use crate::note_transport::cursor::{
    cursor_at, cursor_bytes, not_after, CursorPosition, NoteTransportCursor,
};
use crate::note_transport::fetch::{
    details_commitment_of, file_of, hint_at, hint_bytes, ids_by_commitment, info_at, info_bytes,
    kept_of,
    look_after, received, written_ids, NoteInfo, ReceivedNote,
};
use crate::note_transport::relay::{
    all_entry_bytes, delivery_at, delivery_bytes, entries_at, entry_at, entry_bytes,
    failed_entries, is_entry_for, outbox_at,
    is_read_whole, last_error, outbox_bytes, proof_read_of, views, without, DeliveryView, EntryView,
    RelayDelivery, RelayOutboxEntry,
};
use crate::note_transport::wire::{details_at, details_bytes_of, header_read_of};
use crate::types::{BlockNumber, NoteDetailsCommitment, NoteId, NoteTag};

verus! {

// RECEIVING
// ================================================================================================
/// A note is received if and only if its details can be read, its header commits to them, and its
/// tag is one of the tags, whichever one. It is received as its header says.
pub proof fn law_received(info: NoteInfo, tags: Seq<NoteTag>)
    ensures
        received(info, tags) is Some <==> details_commitment_of(info.details_bytes@) == Some(
            info.header.details_commitment,
        ) && exists|k: int| 0 <= k < tags.len() && #[trigger] tags[k] == info.header.tag,
        received(info, tags) matches Some(note) ==> {
            &&& note.note_id == info.header.note_id
            &&& note.details_commitment == info.header.details_commitment
            &&& note.tag == info.header.tag
            &&& note.block_hint == info.block_hint
        },
{
    if tags.contains(info.header.tag) {
        let k = choose|k: int| 0 <= k < tags.len() && tags[k] == info.header.tag;
        assert(tags[k] == info.header.tag);
    }
}

/// The notes that are received are those that arrive with details that fit and a tag that was asked
/// for, all of them, in order.
pub proof fn law_notes_under_any_tag_are_received(infos: Seq<NoteInfo>, tags: Seq<NoteTag>)
    ensures
        picks(
            present(infos.map_values(|info: NoteInfo| received(info, tags))),
            infos.len() as int,
            |i: int|
                details_commitment_of(infos[i].details_bytes@) == Some(
                    infos[i].header.details_commitment,
                ) && exists|k: int|
                    0 <= k < tags.len() && #[trigger] tags[k] == infos[i].header.tag,
            |i: int|
                ReceivedNote {
                    note_id: infos[i].header.note_id,
                    details_commitment: infos[i].header.details_commitment,
                    tag: infos[i].header.tag,
                    block_hint: infos[i].block_hint,
                },
        ),
{
    let all = infos.map_values(|info: NoteInfo| received(info, tags));
    law_present(all);
    let wanted = |i: int|
        details_commitment_of(infos[i].details_bytes@) == Some(infos[i].header.details_commitment)
            && exists|k: int| 0 <= k < tags.len() && #[trigger] tags[k] == infos[i].header.tag;
    let value = |i: int|
        ReceivedNote {
            note_id: infos[i].header.note_id,
            details_commitment: infos[i].header.details_commitment,
            tag: infos[i].header.tag,
            block_hint: infos[i].block_hint,
        };
    assert forall|i: int| 0 <= i < infos.len() implies #[trigger] wanted(i) == (all[i] is Some) && (
    wanted(i) ==> value(i) == all[i]->0) by {
        law_received(infos[i], tags);
    }
    lemma_picks_same(
        present(all),
        infos.len() as int,
        |i: int| all[i] is Some,
        |i: int| all[i]->0,
        wanted,
        value,
    );
}

/// The order in which the tags are given does not matter, nor how often a tag is given.
pub proof fn law_tag_order_does_not_matter(
    infos: Seq<NoteInfo>,
    tags: Seq<NoteTag>,
    others: Seq<NoteTag>,
)
    requires
        tags.to_set() == others.to_set(),
    ensures
        present(infos.map_values(|info: NoteInfo| received(info, tags))) == present(
            infos.map_values(|info: NoteInfo| received(info, others)),
        ),
{
    assert forall|info: NoteInfo| #[trigger] received(info, tags) == received(info, others) by {
        assert(tags.to_set().contains(info.header.tag) == tags.contains(info.header.tag));
        assert(others.to_set().contains(info.header.tag) == others.contains(info.header.tag));
    }
    assert(infos.map_values(|info: NoteInfo| received(info, tags)) =~= infos.map_values(
        |info: NoteInfo| received(info, others),
    ));
}

/// The id of a note is found by the commitment to its details: that of the last note that was
/// received with them.
pub proof fn law_last_id_by_commitment(
    before: Map<NoteDetailsCommitment, NoteId>,
    notes: Seq<ReceivedNote>,
    i: int,
)
    requires
        0 <= i < notes.len(),
        forall|j: int|
            i < j < notes.len() ==> (#[trigger] notes[j]).details_commitment
                != notes[i].details_commitment,
    ensures
        ids_by_commitment(before, notes).contains_key(notes[i].details_commitment),
        ids_by_commitment(before, notes)[notes[i].details_commitment] == notes[i].note_id,
    decreases notes.len(),
{
    let shorter = notes.drop_last();
    if i < notes.len() - 1 {
        assert(notes[notes.len() - 1].details_commitment != notes[i].details_commitment);
        law_last_id_by_commitment(before, shorter, i);
    }
}

/// Without a note that was received with the details, the id that was known before stays.
pub proof fn law_known_id_stays(
    before: Map<NoteDetailsCommitment, NoteId>,
    notes: Seq<ReceivedNote>,
    commitment: NoteDetailsCommitment,
)
    requires
        forall|i: int|
            0 <= i < notes.len() ==> (#[trigger] notes[i]).details_commitment != commitment,
    ensures
        ids_by_commitment(before, notes).contains_key(commitment) == before.contains_key(commitment),
        before.contains_key(commitment) ==> ids_by_commitment(before, notes)[commitment]
            == before[commitment],
    decreases notes.len(),
{
    if notes.len() > 0 {
        assert(notes[notes.len() - 1].details_commitment != commitment);
        law_known_id_stays(before, notes.drop_last(), commitment);
    }
}

/// A note is kept if and only if no transaction is consuming it, and an account can consume it or its
/// tag is not that of an account. Notes that are kept keep their order.
pub proof fn law_kept_notes(
    notes: Seq<ReceivedNote>,
    account_tags: Map<NoteTag, ()>,
    consumable: Seq<bool>,
    processing: Map<NoteDetailsCommitment, ()>,
)
    requires
        notes.len() == consumable.len(),
    ensures
        picks(
            kept_of(notes, account_tags, consumable, processing),
            notes.len() as int,
            |i: int| !processing.contains_key(notes[i].details_commitment) && (consumable[i]
                || !account_tags.contains_key(notes[i].tag)),
            |i: int| notes[i],
        ),
    decreases notes.len(),
{
    let wanted = |i: int| !processing.contains_key(notes[i].details_commitment) && (consumable[i]
                || !account_tags.contains_key(notes[i].tag));
    let value = |i: int| notes[i];
    if notes.len() == 0 {
        lemma_picks_none(wanted, value);
    } else {
        let notes_before = notes.drop_last();
        let consumable_before = consumable.drop_last();
        law_kept_notes(notes_before, account_tags, consumable_before, processing);
        lemma_picks_next(
            kept_of(notes_before, account_tags, consumable_before, processing),
            |i: int| !processing.contains_key(notes_before[i].details_commitment) && (consumable_before[i]
                || !account_tags.contains_key(notes_before[i].tag)),
            |i: int| notes_before[i],
            kept_of(notes, account_tags, consumable, processing),
            notes.len() as int,
            wanted,
            value,
        );
    }
}

/// A note is looked for under its tag and by its details: from the block that the sender named or,
/// without one, from twenty blocks before the last known one, or from the first block.
pub proof fn law_note_is_looked_for(note: ReceivedNote, sync_height: BlockNumber)
    ensures
        note.block_hint matches Some(block_num) ==> look_after(note, sync_height) == block_num,
        note.block_hint is None && sync_height >= 20 ==> look_after(note, sync_height) + 20
            == sync_height,
        note.block_hint is None && sync_height < 20 ==> look_after(note, sync_height) == 0,
        file_of(note, sync_height) matches NoteFile::ExpectedNote {
            details_commitment,
            after_block_num,
            tag,
        } && details_commitment == note.details_commitment && tag == note.tag && after_block_num
            == look_after(note, sync_height),
{
}

/// The notes that were written are named by their ids: each that is known, wherever it stands, and no
/// other.
pub proof fn law_written_ids(
    written: Seq<NoteDetailsCommitment>,
    id_by_commitment: Map<NoteDetailsCommitment, NoteId>,
    note_id: NoteId,
    i: int,
)
    ensures
        0 <= i < written.len() && id_by_commitment.contains_key(written[i]) ==> written_ids(
            written,
            id_by_commitment,
        ).contains(id_by_commitment[written[i]]),
        written_ids(written, id_by_commitment).contains(note_id) ==> exists|k: int|
            0 <= k < written.len() && id_by_commitment.contains_key(#[trigger] written[k])
                && id_by_commitment[written[k]] == note_id,
{
}

// WHAT IS STORED AND SENT
// ================================================================================================
/// A block that the sender named is written as a one and the four bytes of the block; without a block
/// a zero is written. What is read is what was written, and nothing else is read.
pub proof fn law_hint_layout(block_hint: Option<BlockNumber>, bytes: Seq<u8>)
    ensures
        block_hint is None ==> hint_bytes(block_hint) == seq![0u8],
        block_hint matches Some(block_num) ==> {
            &&& hint_bytes(block_hint).len() == 5
            &&& hint_bytes(block_hint)[0] == 1
            &&& hint_bytes(block_hint)[1] == block_num as nat % 256
            &&& hint_bytes(block_hint).skip(1) == le_bytes(block_num as nat, 4)
        },
        hint_at(bytes) matches Some(found) ==> hint_bytes(found).is_prefix_of(bytes),
        hint_at(bytes) is None <==> bytes.len() == 0 || bytes[0] > 1 || (bytes[0] == 1
            && bytes.len() < 5),
{
    if let Some(block_num) = block_hint {
        law_le_digits(block_num as nat, 4, 0);
        lemma_le_len(block_num as nat, 4);
        lemma2_to64();
        assert(hint_bytes(block_hint).skip(1) =~= le_bytes(block_num as nat, 4));
        assert(hint_bytes(block_hint)[1] == le_bytes(block_num as nat, 4)[0]);
    }
    if let Some(found) = hint_at(bytes) {
        if bytes[0] == 1 {
            let own = bytes.subrange(1, 5);
            lemma_le_bound(own);
            lemma2_to64();
            law_le_is_what_was_read(own);
            assert(bytes.take(5) =~= seq![1u8] + own);
        } else {
            assert(bytes.take(1) =~= seq![0u8]);
        }
        assert(hint_bytes(found) =~= bytes.take(hint_bytes(found).len() as int));
    }
}

/// A note is written as its header, the details behind their length, and the block that the sender
/// named, one after the other.
pub proof fn law_info_layout(header: Seq<u8>, details: Seq<u8>, block_hint: Option<BlockNumber>)
    ensures
        ({
            let bytes = info_bytes(header, details, block_hint);
            let framed = header.len() + length_bytes(details.len()).len();
            &&& header.is_prefix_of(bytes)
            &&& bytes.subrange(header.len() as int, framed as int) == length_bytes(details.len())
            &&& bytes.subrange(framed as int, (framed + details.len()) as int) == details
            &&& bytes.skip((framed + details.len()) as int) == hint_bytes(block_hint)
        }),
{
    let bytes = info_bytes(header, details, block_hint);
    let framed = header.len() + length_bytes(details.len()).len();
    assert(header =~= bytes.take(header.len() as int));
    assert(bytes.subrange(header.len() as int, framed as int) =~= length_bytes(details.len()));
    assert(bytes.subrange(framed as int, (framed + details.len()) as int) =~= details);
    assert(bytes.skip((framed + details.len()) as int) =~= hint_bytes(block_hint));
}

/// Details are read from behind their length, if there are as many bytes as it says.
pub proof fn law_details_layout(details: Seq<u8>, bytes: Seq<u8>)
    ensures
        details_bytes_of(details).len() == length_bytes(details.len()).len() + details.len(),
        length_bytes(details.len()).is_prefix_of(details_bytes_of(details)),
        details_bytes_of(details).skip(length_bytes(details.len()).len() as int) == details,
        details_at(bytes) is Some <==> (length_at(bytes) matches Some((length, size)) && size
            + length <= bytes.len()),
        details_at(bytes) matches Some((found, used)) ==> {
            let (length, size) = length_at(bytes)->0;
            &&& found.len() == length
            &&& used == size + length
            &&& forall|i: int| 0 <= i < length ==> #[trigger] found[i] == bytes[size + i]
        },
{
    let all = details_bytes_of(details);
    let size = length_bytes(details.len()).len() as int;
    assert(length_bytes(details.len()) =~= all.take(size));
    assert(all.skip(size) =~= details);
}

/// A cursor is written as a zero at the start, and otherwise as a one, the nonce and the sequence, of
/// eight bytes each. What is read is what was written, and nothing else is read.
pub proof fn law_cursor_layout(cursor: NoteTransportCursor, bytes: Seq<u8>)
    ensures
        cursor.position is None ==> cursor_bytes(cursor) == seq![0u8],
        cursor.position matches Some(p) ==> {
            &&& cursor_bytes(cursor).len() == 17
            &&& cursor_bytes(cursor)[0] == 1
            &&& cursor_bytes(cursor).subrange(1, 9) == le_bytes(p.nonce as nat, 8)
            &&& cursor_bytes(cursor).subrange(9, 17) == le_bytes(p.sequence as nat, 8)
        },
        cursor_at(bytes) matches Some(found) ==> cursor_bytes(found).is_prefix_of(bytes),
        cursor_at(bytes) is None <==> bytes.len() == 0 || bytes[0] > 1 || (bytes[0] == 1
            && bytes.len() < 17),
{
    if let Some(p) = cursor.position {
        lemma_le_len(p.nonce as nat, 8);
        lemma_le_len(p.sequence as nat, 8);
        assert(cursor_bytes(cursor).subrange(1, 9) =~= le_bytes(p.nonce as nat, 8));
        assert(cursor_bytes(cursor).subrange(9, 17) =~= le_bytes(p.sequence as nat, 8));
    }
    if let Some(found) = cursor_at(bytes) {
        if bytes[0] == 1 {
            let nonce = bytes.subrange(1, 9);
            let sequence = bytes.subrange(9, 17);
            lemma_le_bound(nonce);
            lemma_le_bound(sequence);
            lemma2_to64_rest();
            assert(pow2(64) == 0x1_0000_0000_0000_0000);
            law_le_is_what_was_read(nonce);
            law_le_is_what_was_read(sequence);
            assert(bytes.take(17) =~= seq![1u8] + nonce + sequence);
        } else {
            assert(bytes.take(1) =~= seq![0u8]);
        }
        assert(cursor_bytes(found) =~= bytes.take(cursor_bytes(found).len() as int));
    }
}

/// The start comes before every position. A position with a lower nonce comes first, whatever the
/// sequences are; with equal nonces the one with the lower sequence does.
pub proof fn law_cursor_order(a: CursorPosition, b: CursorPosition)
    ensures
        ({
            let start = NoteTransportCursor { position: None };
            let first = NoteTransportCursor { position: Some(a) };
            let second = NoteTransportCursor { position: Some(b) };
            &&& not_after(start, first) && !not_after(first, start) && not_after(start, start)
            &&& a.nonce < b.nonce ==> not_after(first, second) && !not_after(second, first)
            &&& a.nonce == b.nonce && a.sequence < b.sequence ==> not_after(first, second)
                && !not_after(second, first)
            &&& not_after(first, first)
        }),
{
}

/// A delivery is written with a first byte that says what it is: nothing, a block or a proof. What is
/// read is what was written.
pub proof fn law_delivery_layout(delivery: DeliveryView, bytes: Seq<u8>)
    ensures
        delivery is Plain ==> delivery_bytes(delivery) == seq![0u8],
        delivery matches DeliveryView::BlockHint(block_num) ==> delivery_bytes(delivery)
            == hint_bytes(Some(block_num)),
        delivery is Plain ==> delivery_bytes(delivery) == hint_bytes(None),
        delivery matches DeliveryView::InclusionProof(own) ==> delivery_bytes(delivery)
            == seq![2u8] + own,
        delivery_at(bytes) matches Some((found, size)) ==> (size <= bytes.len() ==> size
            == delivery_bytes(found).len() && delivery_bytes(found).is_prefix_of(bytes)),
        delivery_at(bytes) is None <==> bytes.len() == 0 || bytes[0] > 2 || (bytes[0] == 1
            && bytes.len() < 5) || (bytes[0] == 2 && proof_read_of(bytes.skip(1)) is None),
{
    if let Some((found, size)) = delivery_at(bytes) {
        if bytes[0] == 1 {
            let own = bytes.subrange(1, 5);
            lemma_le_bound(own);
            lemma2_to64();
            law_le_is_what_was_read(own);
            assert(bytes.take(5) =~= seq![1u8] + own);
        } else if bytes[0] == 0 {
            assert(bytes.take(1) =~= seq![0u8]);
        } else if size <= bytes.len() {
            assert(bytes.take(size as int) =~= seq![2u8] + bytes.subrange(1, size as int));
        }
        if size <= bytes.len() {
            assert(delivery_bytes(found) =~= bytes.take(size as int));
        }
    }
}

/// A delivery is seen as what it is: with the block it names, or the bytes of the proof it carries.
pub proof fn law_delivery_view(delivery: RelayDelivery)
    ensures
        delivery is Plain ==> delivery@ is Plain,
        delivery matches RelayDelivery::BlockHint(block_num) ==> delivery@
            == DeliveryView::BlockHint(block_num),
        delivery matches RelayDelivery::InclusionProof(bytes) ==> delivery@
            == DeliveryView::InclusionProof(bytes@),
{
}

/// An entry is written as the header of the note, the details behind their length, and the delivery,
/// one after the other. All of an entry is seen.
pub proof fn law_entry_layout(entry: EntryView, stored: RelayOutboxEntry)
    ensures
        ({
            let bytes = entry_bytes(entry);
            let framed = entry.header.len() + length_bytes(entry.details.len()).len();
            let end = framed + entry.details.len();
            &&& entry.header.is_prefix_of(bytes)
            &&& bytes.subrange(entry.header.len() as int, framed as int) == length_bytes(
                entry.details.len(),
            )
            &&& bytes.subrange(framed as int, end as int) == entry.details
            &&& bytes.skip(end as int) == delivery_bytes(entry.delivery)
        }),
        stored@.note_id == stored.note_id,
        stored@.header == stored.header@,
        stored@.details == stored.details_bytes@,
        stored@.delivery == stored.delivery@,
{
    let bytes = entry_bytes(entry);
    let framed = entry.header.len() + length_bytes(entry.details.len()).len();
    let end = framed + entry.details.len();
    assert(entry.header =~= bytes.take(entry.header.len() as int));
    assert(bytes.subrange(entry.header.len() as int, framed as int) =~= length_bytes(
        entry.details.len(),
    ));
    assert(bytes.subrange(framed as int, end as int) =~= entry.details);
    assert(bytes.skip(end as int) =~= delivery_bytes(entry.delivery));
}

/// An outbox is written as the number of its entries, and the entries one after the other.
pub proof fn law_outbox_layout(entries: Seq<EntryView>, others: Seq<EntryView>, entry: EntryView)
    ensures
        length_bytes(entries.len()).is_prefix_of(outbox_bytes(entries)),
        outbox_bytes(entries).skip(length_bytes(entries.len()).len() as int) == all_entry_bytes(
            entries,
        ),
        all_entry_bytes(Seq::empty()) == Seq::<u8>::empty(),
        all_entry_bytes(seq![entry]) == entry_bytes(entry),
        all_entry_bytes(entries + others) == all_entry_bytes(entries) + all_entry_bytes(others),
    decreases others.len(),
{
    let size = length_bytes(entries.len()).len() as int;
    assert(length_bytes(entries.len()) =~= outbox_bytes(entries).take(size));
    assert(outbox_bytes(entries).skip(size) =~= all_entry_bytes(entries));
    assert(seq![entry].drop_last() =~= Seq::empty());
    assert(all_entry_bytes(Seq::<EntryView>::empty()).len() == 0);
    assert(all_entry_bytes(seq![entry]) =~= entry_bytes(entry));
    if others.len() == 0 {
        assert(entries + others =~= entries);
        assert(all_entry_bytes(entries) + all_entry_bytes(others) =~= all_entry_bytes(entries));
    } else {
        law_outbox_layout(entries, others.drop_last(), entry);
        assert((entries + others).drop_last() =~= entries + others.drop_last());
        assert(all_entry_bytes(entries + others) =~= all_entry_bytes(entries) + all_entry_bytes(
            others,
        ));
    }
}

/// A list of entries is seen entry by entry.
pub proof fn law_views(entries: Seq<RelayOutboxEntry>, i: int)
    requires
        0 <= i < entries.len(),
    ensures
        views(entries).len() == entries.len(),
        views(entries)[i] == entries[i]@,
{
}

/// There is an entry for a note if and only if all the bytes of its header are read as one. It has the
/// id that the header says, and what it was made of.
pub proof fn law_entry_for_header(
    entry: Option<RelayOutboxEntry>,
    header: Seq<u8>,
    details: Seq<u8>,
    delivery: DeliveryView,
)
    requires
        is_entry_for(entry, header, details, delivery),
    ensures
        entry is Some <==> (header_read_of(header) matches Some((_, size)) && size == header.len()),
        entry matches Some(made) ==> {
            &&& header_read_of(header) matches Some((read, _)) && made.note_id == read.note_id
            &&& made.header@ == header
            &&& made.details_bytes@ == details
            &&& made.delivery@ == delivery
        },
{
}

/// Bytes are read as one proof if and only if the proof that they start with takes all of them.
pub proof fn law_proof_is_read_whole(bytes: Seq<u8>)
    ensures
        proof_read_of(bytes) is None ==> !is_read_whole(bytes),
        proof_read_of(bytes) matches Some((_, size)) ==> is_read_whole(bytes) == (size
            == bytes.len()),
{
}

// OUTBOX
// ================================================================================================
/// Removing a note removes each of its entries, and keeps every other entry, in order.
pub proof fn law_other_entries_stay(
    entries: Seq<RelayOutboxEntry>,
    note_id: NoteId,
)
    ensures
        picks(
            without(entries, note_id),
            entries.len() as int,
            |i: int| entries[i].note_id != note_id,
            |i: int| entries[i],
        ),
    decreases entries.len(),
{
    let wanted = |i: int| entries[i].note_id != note_id;
    let value = |i: int| entries[i];
    if entries.len() == 0 {
        lemma_picks_none(wanted, value);
    } else {
        let entries_before = entries.drop_last();
        law_other_entries_stay(entries_before, note_id);
        lemma_picks_next(
            without(entries_before, note_id),
            |i: int| entries_before[i].note_id != note_id,
            |i: int| entries_before[i],
            without(entries, note_id),
            entries.len() as int,
            wanted,
            value,
        );
    }
}

/// What could not be delivered stays in the outbox, all of it and in order; what was delivered leaves.
pub proof fn law_failed_entries_stay<E>(
    entries: Seq<RelayOutboxEntry>,
    outcomes: Seq<Option<E>>,
)
    requires
        entries.len() == outcomes.len(),
    ensures
        picks(
            failed_entries(entries, outcomes),
            entries.len() as int,
            |i: int| outcomes[i] is Some,
            |i: int| entries[i],
        ),
    decreases entries.len(),
{
    let wanted = |i: int| outcomes[i] is Some;
    let value = |i: int| entries[i];
    if entries.len() == 0 {
        lemma_picks_none(wanted, value);
    } else {
        let entries_before = entries.drop_last();
        let outcomes_before = outcomes.drop_last();
        law_failed_entries_stay(entries_before, outcomes_before);
        lemma_picks_next(
            failed_entries(entries_before, outcomes_before),
            |i: int| outcomes_before[i] is Some,
            |i: int| entries_before[i],
            failed_entries(entries, outcomes),
            entries.len() as int,
            wanted,
            value,
        );
    }
}

/// The error that is reported is the last one.
pub proof fn law_last_error<E>(outcomes: Seq<Option<E>>, i: int)
    requires
        0 <= i < outcomes.len(),
        outcomes[i] is Some,
        forall|j: int| i < j < outcomes.len() ==> #[trigger] outcomes[j] is None,
    ensures
        last_error(outcomes) == outcomes[i],
    decreases outcomes.len(),
{
    if i < outcomes.len() - 1 {
        assert(outcomes[outcomes.len() - 1] is None);
        law_last_error(outcomes.drop_last(), i);
    }
}

/// Without an error none is reported.
pub proof fn law_no_error<E>(outcomes: Seq<Option<E>>)
    requires
        forall|i: int| 0 <= i < outcomes.len() ==> #[trigger] outcomes[i] is None,
    ensures
        last_error(outcomes) is None,
    decreases outcomes.len(),
{
    if outcomes.len() > 0 {
        assert(outcomes[outcomes.len() - 1] is None);
        law_no_error(outcomes.drop_last());
    }
}

// TAGS
// ================================================================================================
/// Tags that the user asked for, and tags of accounts, have a history; no others do.
pub proof fn law_has_history(record: NoteTagRecord)
    ensures
        record.source is User ==> has_history(record),
        record.source is Account ==> has_history(record),
        record.source is Note ==> !has_history(record),
        record.source is Subscription ==> !has_history(record),
{
}

/// A tag is found if any record that fits has it.
pub proof fn law_is_tag_of(
    records: Seq<NoteTagRecord>,
    fits: spec_fn(NoteTagRecord) -> bool,
    tag: NoteTag,
    i: int,
)
    ensures
        0 <= i < records.len() && fits(records[i]) ==> is_tag_of(records, fits, records[i].tag),
        is_tag_of(records, fits, tag) ==> exists|k: int|
            0 <= k < records.len() && fits(#[trigger] records[k]) && records[k].tag == tag,
{
}

/// The tags that are not covered are recovered in order, all of them, until there are as many as the
/// limit allows.
pub proof fn law_uncovered_tags_are_recovered(
    candidates: Seq<(NoteTag, ())>,
    covered: Map<NoteTag, ()>,
    limit: nat,
) -> (m: int)
    ensures
        0 <= m <= candidates.len(),
        picks(
            uncovered(candidates, covered, limit),
            m,
            |i: int| !covered.contains_key(candidates[i].0),
            |i: int| candidates[i].0,
        ),
        uncovered(candidates, covered, limit).len() <= limit,
        m < candidates.len() ==> uncovered(candidates, covered, limit).len() == limit,
    decreases candidates.len(),
{
    let wanted = |i: int| !covered.contains_key(candidates[i].0);
    let value = |i: int| candidates[i].0;
    if candidates.len() == 0 {
        lemma_picks_none(wanted, value);
        0
    } else {
        let before = candidates.drop_last();
        let wanted_before = |i: int| !covered.contains_key(before[i].0);
        let value_before = |i: int| before[i].0;
        let m = law_uncovered_tags_are_recovered(before, covered, limit);
        let rest = uncovered(before, covered, limit);
        if rest.len() < limit {
            lemma_picks_next(
                rest,
                wanted_before,
                value_before,
                uncovered(candidates, covered, limit),
                candidates.len() as int,
                wanted,
                value,
            );
            candidates.len() as int
        } else {
            lemma_picks_same(rest, m, wanted_before, value_before, wanted, value);
            m
        }
    }
}

/// Tags are written one after the other, of four bytes each, behind their number.
pub proof fn law_tags_layout(tags: Seq<NoteTag>, i: int)
    requires
        0 <= i < tags.len(),
    ensures
        tag_bytes(tags).len() == 4 * tags.len(),
        tag_bytes(tags).subrange(4 * i, 4 * i + 4) == le_bytes(tags[i] as nat, 4),
        length_bytes(tags.len()).is_prefix_of(covered_bytes(tags)),
        covered_bytes(tags).skip(length_bytes(tags.len()).len() as int) == tag_bytes(tags),
    decreases tags.len(),
{
    let size = length_bytes(tags.len()).len() as int;
    assert(length_bytes(tags.len()) =~= covered_bytes(tags).take(size));
    assert(covered_bytes(tags).skip(size) =~= tag_bytes(tags));
    lemma_le_len(tags[0] as nat, 4);
    let others = tags.skip(1);
    lemma_tag_bytes_len(others);
    if i == 0 {
        assert(tag_bytes(tags).subrange(0, 4) =~= le_bytes(tags[0] as nat, 4));
    } else {
        law_tags_layout(others, i - 1);
        assert(tag_bytes(tags).subrange(4 * i, 4 * i + 4) =~= tag_bytes(others).subrange(
            4 * (i - 1),
            4 * (i - 1) + 4,
        ));
    }
}

/// A tag takes four bytes.
proof fn lemma_tag_bytes_len(tags: Seq<NoteTag>)
    ensures
        tag_bytes(tags).len() == 4 * tags.len(),
    decreases tags.len(),
{
    if tags.len() > 0 {
        lemma_le_len(tags[0] as nat, 4);
        lemma_tag_bytes_len(tags.skip(1));
    }
}

/// As many tags are read as are asked for, if there are four bytes for each, and each from its own
/// bytes.
pub proof fn law_tags_are_read(bytes: Seq<u8>, count: nat)
    ensures
        tags_at(bytes, count) is Some <==> bytes.len() >= 4 * count,
        tags_at(bytes, count) matches Some(tags) ==> {
            &&& tags.len() == count
            &&& forall|i: int|
                0 <= i < count ==> #[trigger] tags[i] as nat == le_value(
                    bytes.subrange(4 * i, 4 * i + 4),
                )
        },
    decreases count,
{
    if count > 0 && bytes.len() >= 4 {
        let others = bytes.skip(4);
        law_tags_are_read(others, (count - 1) as nat);
        if let Some(tags) = tags_at(bytes, count) {
            let rest = tags_at(others, (count - 1) as nat)->0;
            assert forall|i: int| 0 <= i < count implies #[trigger] tags[i] as nat == le_value(
                bytes.subrange(4 * i, 4 * i + 4),
            ) by {
                if i == 0 {
                    assert(bytes.take(4) =~= bytes.subrange(0, 4));
                    lemma_le_bound(bytes.take(4));
                    lemma2_to64();
                } else {
                    assert(tags[i] == rest[i - 1]);
                    assert(others.subrange(4 * (i - 1), 4 * (i - 1) + 4) =~= bytes.subrange(
                        4 * i,
                        4 * i + 4,
                    ));
                }
            }
        }
    }
}


// READING
// ================================================================================================
/// A note is read if and only if its header, then its details and then the block the sender may have
/// named can be read one after the other; it is made of these.
pub proof fn law_info_is_read(bytes: Seq<u8>)
    ensures
        header_read_of(bytes) is None ==> info_at(bytes) is None,
        header_read_of(bytes) matches Some((header, size)) ==> {
            let behind = bytes.skip(size as int);
            &&& details_at(behind) is None ==> info_at(bytes) is None
            &&& details_at(behind) matches Some((details, used)) ==> {
                let hint = hint_at(bytes.skip((size + used) as int));
                &&& hint is None ==> info_at(bytes) is None
                &&& hint matches Some(block_hint) ==> info_at(bytes) == Some(
                    (header, details, block_hint),
                )
            }
        },
{
}

/// An entry is read if and only if its header, then its details and then its delivery can be read one
/// after the other; it is made of these, and takes as many bytes as they do.
pub proof fn law_entry_is_read(bytes: Seq<u8>)
    ensures
        header_read_of(bytes) is None ==> entry_at(bytes) is None,
        header_read_of(bytes) matches Some((header, size)) ==> {
            let behind = bytes.skip(size as int);
            &&& details_at(behind) is None ==> entry_at(bytes) is None
            &&& details_at(behind) matches Some((details, used)) ==> {
                let sent = delivery_at(bytes.skip((size + used) as int));
                &&& sent is None ==> entry_at(bytes) is None
                &&& sent matches Some((delivery, rest)) ==> (entry_at(bytes) matches Some(
                    (entry, all),
                ) && entry.note_id == header.note_id && entry.header == bytes.take(size as int)
                    && entry.details == details && entry.delivery == delivery && all == size + used
                    + rest)
            }
        },
{
}

/// Entries are read one after the other, as many as their number says, and none if one of them cannot
/// be read.
pub proof fn law_entries_are_read(bytes: Seq<u8>, count: nat)
    ensures
        entries_at(bytes, 0) == Some(Seq::<EntryView>::empty()),
        entry_at(bytes) is None ==> entries_at(bytes, count + 1) is None,
        entry_at(bytes) matches Some((entry, size)) ==> match entries_at(
            bytes.skip(size as int),
            count,
        ) {
            None => entries_at(bytes, count + 1) is None,
            Some(others) => entries_at(bytes, count + 1) == Some(seq![entry] + others),
        },
        length_at(bytes) is None ==> outbox_at(bytes) is None,
        length_at(bytes) matches Some((number, size)) ==> {
            &&& number > usize::MAX ==> outbox_at(bytes) is None
            &&& number <= usize::MAX ==> outbox_at(bytes) == entries_at(
                bytes.skip(size as int),
                number,
            )
        },
{
    assert(entries_at(bytes, count + 1) == match entry_at(bytes) {
        None => None,
        Some((entry, size)) => match entries_at(
            bytes.skip(size as int),
            ((count + 1) as nat - 1) as nat,
        ) {
            None => None,
            Some(others) => Some(seq![entry] + others),
        },
    });
    assert(((count + 1) as nat - 1) as nat == count);
}

/// The covered tags are read behind their number.
pub proof fn law_covered_tags_are_read(bytes: Seq<u8>)
    ensures
        length_at(bytes) is None ==> covered_at(bytes) is None,
        length_at(bytes) matches Some((number, size)) ==> {
            &&& number > usize::MAX ==> covered_at(bytes) is None
            &&& number <= usize::MAX ==> covered_at(bytes) == tags_at(
                bytes.skip(size as int),
                number,
            )
        },
{
}

} // verus!
