//! Finding notes of the client.
use vstd::prelude::*;

use crate::collections::OrdMap;
use crate::protocol_config::{word_hex, word_hex_of};
use crate::store::InputNoteRecord;
use crate::text::{occurs_at, starts_with};
use crate::types::NoteId;

verus! {

/// Why no note is returned for the beginning of an id. The text names the beginning.
#[derive(Debug)]
pub enum IdPrefixFetchError {
    NoMatch(String),
    MultipleMatches(String),
}

/// How the beginning of an id is named.
pub open spec fn prefix_text(prefix: Seq<char>) -> Seq<char> {
    "note ID prefix "@ + prefix
}

/// The id of the note is known, and its hexadecimal digits start with the prefix.
pub open spec fn has_id_prefix(record: InputNoteRecord, prefix: Seq<char>) -> bool {
    record.note_id matches Some(id) && occurs_at(word_hex_of(id), prefix, 0)
}

/// Returns the position of the one note whose id starts with the prefix.
pub fn find_by_id_prefix(records: &Vec<InputNoteRecord>, note_id_prefix: &str) -> (found: Result<
    usize,
    IdPrefixFetchError,
>)
    ensures
        match found {
            Ok(i) => {
                &&& 0 <= i < records@.len()
                &&& has_id_prefix(records@[i as int], note_id_prefix@)
                &&& forall|k: int|
                    0 <= k < records@.len() && k != i ==> !has_id_prefix(
                        #[trigger] records@[k],
                        note_id_prefix@,
                    )
            },
            Err(IdPrefixFetchError::NoMatch(text)) => {
                &&& text@ == prefix_text(note_id_prefix@)
                &&& forall|k: int|
                    0 <= k < records@.len() ==> !has_id_prefix(
                        #[trigger] records@[k],
                        note_id_prefix@,
                    )
            },
            Err(IdPrefixFetchError::MultipleMatches(text)) => {
                &&& text@ == prefix_text(note_id_prefix@)
                &&& exists|j: int, k: int|
                    0 <= j < k < records@.len() && has_id_prefix(
                        #[trigger] records@[j],
                        note_id_prefix@,
                    ) && has_id_prefix(#[trigger] records@[k], note_id_prefix@)
            },
        },
{
    let mut found: Option<usize> = None;
    let mut i: usize = 0;
    while i < records.len()
        invariant
            i <= records.len(),
            match found {
                Some(f) => {
                    &&& 0 <= f < i
                    &&& has_id_prefix(records@[f as int], note_id_prefix@)
                    &&& forall|k: int|
                        0 <= k < i && k != f ==> !has_id_prefix(
                            #[trigger] records@[k],
                            note_id_prefix@,
                        )
                },
                None => forall|k: int|
                    0 <= k < i ==> !has_id_prefix(#[trigger] records@[k], note_id_prefix@),
            },
        decreases records.len() - i,
    {
        if let Some(id) = records[i].note_id {
            if starts_with(word_hex(id).as_str(), note_id_prefix) {
                assert(has_id_prefix(records@[i as int], note_id_prefix@));
                if found.is_some() {
                    let text = "note ID prefix ".to_owned().concat(note_id_prefix);
                    return Err(IdPrefixFetchError::MultipleMatches(text));
                }
                found = Some(i);
            }
        }
        i += 1;
    }
    match found {
        Some(i) => Ok(i),
        None => Err(
            IdPrefixFetchError::NoMatch("note ID prefix ".to_owned().concat(note_id_prefix)),
        ),
    }
}

/// The notes that can be consumed, each with what was found out about it. The notes whose ids are in
/// `relevances` can be consumed, and each id is used once.
pub open spec fn consumable_of<R>(
    records: Seq<InputNoteRecord>,
    relevances: Map<NoteId, R>,
) -> Seq<(InputNoteRecord, R)>
    decreases records.len(),
{
    if records.len() == 0 {
        Seq::empty()
    } else {
        match records[0].note_id {
            Some(id) if relevances.contains_key(id) => seq![(records[0], relevances[id])]
                + consumable_of(records.skip(1), relevances.remove(id)),
            _ => consumable_of(records.skip(1), relevances),
        }
    }
}

/// Returns the notes that can be consumed, each with what was found out about it.
pub fn consumable_notes<R>(
    committed_notes: &Vec<InputNoteRecord>,
    relevances: OrdMap<NoteId, R>,
) -> (notes: Vec<(InputNoteRecord, R)>)
    ensures
        notes@ == consumable_of(committed_notes@, relevances@),
{
    let ghost all = committed_notes@;
    let ghost given = relevances@;
    let mut relevances = relevances;
    let mut notes: Vec<(InputNoteRecord, R)> = Vec::new();
    let mut i: usize = 0;
    assert(all.skip(0) =~= all);
    while i < committed_notes.len()
        invariant
            i <= committed_notes.len(),
            all == committed_notes@,
            notes@ + consumable_of(all.skip(i as int), relevances@) == consumable_of(all, given),
        decreases committed_notes.len() - i,
    {
        let note = committed_notes[i];
        let ghost before = notes@;
        let ghost left = relevances@;
        proof {
            assert(all.skip(i as int)[0] == note);
            assert(all.skip(i as int).skip(1) =~= all.skip(i + 1));
        }
        if let Some(id) = note.note_id {
            if let Some(relevance) = relevances.remove(&id) {
                notes.push((note, relevance));
                proof {
                    let rest = consumable_of(all.skip(i + 1), left.remove(id));
                    assert(before + (seq![(note, relevance)] + rest) =~= before.push(
                        (note, relevance),
                    ) + rest);
                }
            } else {
                assert(left.remove(id) =~= left);
            }
        }
        i += 1;
    }
    proof {
        assert(all.skip(i as int) =~= Seq::empty());
        assert(notes@ + Seq::<(InputNoteRecord, R)>::empty() =~= notes@);
    }
    notes
}

} // verus!
