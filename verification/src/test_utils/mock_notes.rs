//! How a mock node answers requests for the notes with some tags.
use vstd::prelude::*;

use crate::collections::{
    contains_key, entries_map, has_key, keys_ascending, lemma_entry_of, lemma_take_next, OrdMap,
};
use crate::rpc::domain::note::{CommittedNote, NoteInclusionProof, SyncNotesBlock};
use crate::test_utils::mock::MockRpcApi;
use crate::test_utils::mock_chain::{mmr_path, mmr_path_of, MockChainNote};
use crate::types::{BlockNumber, NoteId, NoteTag, Word};

verus! {

/// The note has one of the tags, and was created in the range of blocks.
pub open spec fn is_requested(
    note: MockChainNote,
    tags: Seq<NoteTag>,
    from: BlockNumber,
    to: BlockNumber,
) -> bool {
    tags.contains(note.metadata.tag) && from <= note.inclusion_proof.block_num <= to
}

/// The note is one of those that are requested, and was created in the block.
pub open spec fn is_listed(
    notes: Map<NoteId, MockChainNote>,
    tags: Seq<NoteTag>,
    from: BlockNumber,
    to: BlockNumber,
    block_num: BlockNumber,
    id: NoteId,
) -> bool {
    &&& notes.contains_key(id)
    &&& is_requested(notes[id], tags, from, to)
    &&& notes[id].inclusion_proof.block_num == block_num
}

/// Every attachment of the note is one word long.
pub open spec fn has_short_attachments(note: MockChainNote) -> bool {
    forall|i: int|
        0 <= i < note.attachment_words@.len() ==> #[trigger] note.attachment_words@[i] == 1
}

/// The note as it is sent: with its attachments if all of them are short, since those are sent as they
/// are, and otherwise with the commitment to them only.
pub open spec fn is_committed_of(committed: CommittedNote, id: NoteId, note: MockChainNote) -> bool {
    &&& committed.note_id == id
    &&& committed.metadata == note.metadata
    &&& committed.inclusion_proof.block_num == note.inclusion_proof.block_num
    &&& committed.inclusion_proof.node_index == note.inclusion_proof.node_index
    &&& committed.inclusion_proof.note_path@ == note.inclusion_proof.note_path@
    &&& match committed.attachments {
        Some(attachments) => has_short_attachments(note) && attachments@ == note.attachments@,
        None => !has_short_attachments(note),
    }
}

/// The notes are those of a block that are requested.
pub open spec fn are_notes_of(
    sent: Map<NoteId, CommittedNote>,
    notes: Map<NoteId, MockChainNote>,
    tags: Seq<NoteTag>,
    from: BlockNumber,
    to: BlockNumber,
    block_num: BlockNumber,
) -> bool {
    &&& forall|id: NoteId| #[trigger]
        sent.contains_key(id) <==> is_listed(notes, tags, from, to, block_num, id)
    &&& forall|id: NoteId| #[trigger]
        sent.contains_key(id) ==> is_committed_of(sent[id], id, notes[id])
}

/// The notes are sorted by the blocks they were created in, and none of those that are requested is
/// missing.
pub open spec fn are_grouped(
    grouped: Map<BlockNumber, OrdMap<NoteId, CommittedNote>>,
    notes: Map<NoteId, MockChainNote>,
    tags: Seq<NoteTag>,
    from: BlockNumber,
    to: BlockNumber,
) -> bool {
    &&& forall|block_num: BlockNumber| #[trigger]
        grouped.contains_key(block_num) ==> grouped[block_num].listing().len() > 0 && are_notes_of(
            grouped[block_num]@,
            notes,
            tags,
            from,
            to,
            block_num,
        )
    &&& forall|id: NoteId|
        #![trigger notes.contains_key(id)]
        notes.contains_key(id) && is_requested(notes[id], tags, from, to) ==> grouped.contains_key(
            notes[id].inclusion_proof.block_num,
        )
}

/// Returns true if every attachment of the note is one word long.
fn is_short(note: &MockChainNote) -> (short: bool)
    ensures
        short == has_short_attachments(*note),
{
    let mut i: usize = 0;
    while i < note.attachment_words.len()
        invariant
            i <= note.attachment_words.len(),
            forall|k: int| 0 <= k < i ==> #[trigger] note.attachment_words@[k] == 1,
        decreases note.attachment_words.len() - i,
    {
        if note.attachment_words[i] != 1 {
            assert(note.attachment_words@[i as int] != 1);
            return false;
        }
        i += 1;
    }
    true
}

/// Returns the note as it is sent.
fn committed_note(id: NoteId, note: &MockChainNote) -> (committed: CommittedNote)
    ensures
        is_committed_of(committed, id, *note),
{
    CommittedNote {
        note_id: id,
        metadata: note.metadata,
        inclusion_proof: NoteInclusionProof {
            block_num: note.inclusion_proof.block_num,
            node_index: note.inclusion_proof.node_index,
            note_path: note.inclusion_proof.note_path.clone(),
        },
        attachments: if is_short(note) {
            Some(note.attachments.clone())
        } else {
            None
        },
    }
}

/// Returns the notes that are requested, sorted by the blocks they were created in.
fn group_notes(
    notes: &OrdMap<NoteId, MockChainNote>,
    tags: &Vec<NoteTag>,
    from: BlockNumber,
    to: BlockNumber,
) -> (grouped: OrdMap<BlockNumber, OrdMap<NoteId, CommittedNote>>)
    ensures
        are_grouped(grouped@, notes@, tags@, from, to),
{
    let ghost all = notes.listing();
    let mut grouped: OrdMap<BlockNumber, OrdMap<NoteId, CommittedNote>> = OrdMap::new();
    let mut i: usize = 0;
    proof {
        use_type_invariant(notes);
        assert(entries_map(all.take(0)) =~= Map::empty());
    }
    while i < notes.len()
        invariant
            i <= notes.listing().len(),
            all == notes.listing(),
            keys_ascending(all),
            are_grouped(grouped@, entries_map(all.take(i as int)), tags@, from, to),
        decreases notes.listing().len() - i,
    {
        let id = notes.entries()[i].0;
        let note = &notes.entries()[i].1;
        let block_num = note.inclusion_proof.block_num;
        let ghost before = grouped@;
        let ghost shorter = entries_map(all.take(i as int));
        let ghost longer = entries_map(all.take(i + 1));
        proof {
            lemma_take_next(all, i as int);
            assert(longer == shorter.insert(id, *note));
            assert(!shorter.contains_key(id));
        }
        let requested = contains_key(tags, &note.metadata.tag) && from <= block_num && block_num
            <= to;
        if requested {
            let mut block_notes = match grouped.remove(&block_num) {
                Some(existing) => existing,
                None => OrdMap::new(),
            };
            let ghost existing = block_notes@;
            assert(are_notes_of(existing, shorter, tags@, from, to, block_num)) by {
                if !before.contains_key(block_num) {
                    assert forall|other: NoteId| !#[trigger] is_listed(
                        shorter,
                        tags@,
                        from,
                        to,
                        block_num,
                        other,
                    ) by {
                        assert(shorter.contains_key(other) ==> !is_requested(
                            shorter[other],
                            tags@,
                            from,
                            to,
                        ) || shorter[other].inclusion_proof.block_num != block_num);
                    }
                }
            }
            block_notes.insert(id, committed_note(id, note));
            proof {
                let now = block_notes@;
                assert(now.contains_key(id));
                assert(block_notes.listing().len() > 0) by {
                    assert(has_key(block_notes.listing(), id));
                }
                assert forall|other: NoteId| #[trigger] now.contains_key(other) <==> is_listed(
                    longer,
                    tags@,
                    from,
                    to,
                    block_num,
                    other,
                ) by {
                    assert(existing.contains_key(other) <==> is_listed(
                        shorter,
                        tags@,
                        from,
                        to,
                        block_num,
                        other,
                    ));
                }
                assert forall|other: NoteId| #[trigger] now.contains_key(other) implies is_committed_of(
                    now[other],
                    other,
                    longer[other],
                ) by {
                    if other != id {
                        assert(existing.contains_key(other));
                    }
                }
            }
            grouped.insert(block_num, block_notes);
        }
        proof {
            assert forall|b: BlockNumber| #[trigger] grouped@.contains_key(b) implies grouped@[b].listing().len()
                > 0 && are_notes_of(
                grouped@[b]@,
                longer,
                tags@,
                from,
                to,
                b,
            ) by {
                if !(requested && b == block_num) {
                    assert(before.contains_key(b));
                    let sent = before[b]@;
                    assert forall|other: NoteId| #[trigger] sent.contains_key(other) <==> is_listed(
                        longer,
                        tags@,
                        from,
                        to,
                        b,
                        other,
                    ) by {
                        assert(sent.contains_key(other) <==> is_listed(
                            shorter,
                            tags@,
                            from,
                            to,
                            b,
                            other,
                        ));
                    }
                }
            }
            assert forall|other: NoteId|
                #![trigger longer.contains_key(other)]
                longer.contains_key(other) && is_requested(
                    longer[other],
                    tags@,
                    from,
                    to,
                ) implies grouped@.contains_key(longer[other].inclusion_proof.block_num) by {
                if other != id {
                    assert(shorter.contains_key(other));
                }
            }
        }
        i += 1;
    }
    assert(all.take(i as int) =~= all);
    grouped
}

/// The path of a block that is sent: the right one, unless another one was set.
pub open spec fn path_sent(api: MockRpcApi, block_num: BlockNumber) -> Seq<Word> {
    if api.sync_notes_mmr_path_overrides@.contains_key(block_num) {
        api.sync_notes_mmr_path_overrides@[block_num]@
    } else {
        mmr_path_of(api.chain.leaves(), block_num as nat)
    }
}

/// The block holds the notes of the block that are requested.
pub open spec fn is_notes_block(
    api: MockRpcApi,
    block: SyncNotesBlock,
    tags: Seq<NoteTag>,
    from: BlockNumber,
    to: BlockNumber,
) -> bool {
    let block_num = block.block_header.block_num;
    &&& block_num <= api.chain.tip()
    &&& block.block_header == api.chain.blocks@[block_num as int].header
    &&& block.mmr_path@ == path_sent(api, block_num)
    &&& block.notes.listing().len() > 0
    &&& are_notes_of(block.notes@, api.chain.notes@, tags, from, to, block_num)
}

impl MockRpcApi {
    /// Returns the notes with one of the tags that were created in a range of blocks, by block.
    pub fn sync_notes(&self, block_from: BlockNumber, block_to: BlockNumber, note_tags: &Vec<NoteTag>) -> (
    blocks: Vec<SyncNotesBlock>)
        requires
            self.wf(),
            forall|id: NoteId| #[trigger]
                self.chain.notes@.contains_key(id)
                    ==> self.chain.notes@[id].inclusion_proof.block_num <= self.chain.tip(),
        ensures
            forall|i: int, j: int|
                0 <= i < j < blocks@.len() ==> (#[trigger] blocks@[i]).block_header.block_num < (
                #[trigger] blocks@[j]).block_header.block_num,
            forall|i: int|
                0 <= i < blocks@.len() ==> is_notes_block(
                    *self,
                    #[trigger] blocks@[i],
                    note_tags@,
                    block_from,
                    block_to,
                ),
            forall|id: NoteId|
                #![trigger self.chain.notes@.contains_key(id)]
                self.chain.notes@.contains_key(id) && is_requested(
                    self.chain.notes@[id],
                    note_tags@,
                    block_from,
                    block_to,
                ) ==> exists|i: int|
                    0 <= i < blocks@.len() && (#[trigger] blocks@[i]).block_header.block_num
                        == self.chain.notes@[id].inclusion_proof.block_num,
    {
        let leaves = self.chain.block_commitments();
        let grouped = group_notes(&self.chain.notes, note_tags, block_from, block_to);
        let ghost all = grouped.listing();
        let ghost groups = grouped@;
        let ghost mut n: int = 0;
        let mut blocks: Vec<SyncNotesBlock> = Vec::new();
        let listed = grouped.into_entries();
        for entry in iter: listed
            invariant
                iter.seq() == all,
                n == iter.index(),
                n == blocks@.len(),
                self.wf(),
                leaves@ == self.chain.leaves(),
                keys_ascending(all),
                groups == entries_map(all),
                are_grouped(groups, self.chain.notes@, note_tags@, block_from, block_to),
                forall|id: NoteId| #[trigger]
                    self.chain.notes@.contains_key(id)
                        ==> self.chain.notes@[id].inclusion_proof.block_num <= self.chain.tip(),
                forall|k: int|
                    0 <= k < n ==> is_notes_block(
                        *self,
                        #[trigger] blocks@[k],
                        note_tags@,
                        block_from,
                        block_to,
                    ) && blocks@[k].block_header.block_num == all[k].0,
        {
            let (block_num, notes) = entry;
            proof {
                assert(all[n] == entry);
                lemma_entry_of(all, n);
                assert(groups.contains_key(block_num));
                use_type_invariant(&notes);
                lemma_entry_of(notes.listing(), 0);
                let id = notes.listing()[0].0;
                assert(notes@.contains_key(id));
                assert(self.chain.notes@.contains_key(id));
            }
            let block_header = self.chain.blocks[block_num as usize].header;
            let mmr_path = match self.sync_notes_mmr_path_overrides.get(&block_num) {
                Some(path) => path.clone(),
                None => mmr_path(&leaves, block_num).unwrap(),
            };
            blocks.push(SyncNotesBlock { block_header, mmr_path, notes });
            proof {
                n = n + 1;
            }
        }
        proof {
            assert forall|i: int, j: int| 0 <= i < j < blocks@.len() implies (
            #[trigger] blocks@[i]).block_header.block_num < (
            #[trigger] blocks@[j]).block_header.block_num by {
                assert(all[i].0 < all[j].0);
            }
            assert forall|id: NoteId|
                #![trigger self.chain.notes@.contains_key(id)]
                self.chain.notes@.contains_key(id) && is_requested(
                    self.chain.notes@[id],
                    note_tags@,
                    block_from,
                    block_to,
                ) implies exists|i: int|
                0 <= i < blocks@.len() && (#[trigger] blocks@[i]).block_header.block_num
                    == self.chain.notes@[id].inclusion_proof.block_num by {
                let block_num = self.chain.notes@[id].inclusion_proof.block_num;
                assert(groups.contains_key(block_num));
                let k = choose|k: int| 0 <= k < all.len() && (#[trigger] all[k]).0 == block_num;
                assert(blocks@[k].block_header.block_num == block_num);
            }
        }
        blocks
    }
}

} // verus!
