//! Notes that arrive over the note transport layer, before they are imported.
use miden_protocol::note::NoteDetails;
use miden_protocol::utils::serde::Deserializable;
use vstd::arithmetic::power2::{lemma2_to64, pow2};
use vstd::prelude::*;

use crate::bytes::{
    le_bytes, le_value, lemma_le_bound, lemma_le_inverse, lemma_le_len, read_le, write_le,
};
use crate::collections::{contains_key, lists_set, present, OrdMap};
use crate::note::import::NoteFile;
use crate::note_transport::wire::{
    details_at, details_bytes_of, header_read_of, is_header, lemma_details_inverse, read_details,
    read_header, write_details, NoteHeaderInfo,
};
use crate::types::{BlockNumber, NoteDetailsCommitment, NoteId, NoteTag, Word};

verus! {

/// How many blocks are looked back for a note that arrives without a block from which to look. The
/// note may have been created just before it arrived.
pub const NOTE_LOOKBACK_BLOCKS: u32 = 20;

/// The commitment to the details of a note that bytes hold; `None` if they hold none.
pub uninterp spec fn details_commitment_of(bytes: Seq<u8>) -> Option<NoteDetailsCommitment>;

/// `NoteDetails::read_from_bytes`, and `NoteDetails::commitment`: the commitment to the details of a
/// note that bytes hold. The hash that makes it is only named.
#[verifier::external_body]
fn details_commitment(bytes: &Vec<u8>) -> (commitment: Option<NoteDetailsCommitment>)
    ensures
        commitment == details_commitment_of(bytes@),
{
    let details = NoteDetails::read_from_bytes(bytes).ok()?;
    let commitment = details.commitment().as_word().into_elements();
    Some(Word::from_elements(commitment.map(|e| e.as_canonical_u64())))
}

/// A note that arrives over the note transport layer.
#[derive(Debug)]
pub struct NoteInfo {
    pub header: NoteHeaderInfo,
    /// The details of the note, in serialized form.
    pub details_bytes: Vec<u8>,
    /// A block from which to look for the note, if the sender named one.
    pub block_hint: Option<BlockNumber>,
}

impl NoteInfo {
    /// Returns a note without a block from which to look for it.
    pub fn new(header: NoteHeaderInfo, details_bytes: Vec<u8>) -> (info: Self)
        ensures
            info == (NoteInfo { header, details_bytes, block_hint: None }),
    {
        NoteInfo { header, details_bytes, block_hint: None }
    }
}

// SERIALIZATION
// ================================================================================================
/// The bytes of a block that the sender may have named.
pub open spec fn hint_bytes(block_hint: Option<BlockNumber>) -> Seq<u8> {
    match block_hint {
        None => seq![0u8],
        Some(block_num) => seq![1u8] + le_bytes(block_num as nat, 4),
    }
}

/// The block that the sender may have named, at the start of bytes.
pub open spec fn hint_at(bytes: Seq<u8>) -> Option<Option<BlockNumber>> {
    if bytes.len() == 0 {
        None
    } else if bytes[0] == 0 {
        Some(None)
    } else if bytes[0] == 1 && bytes.len() >= 5 {
        Some(Some(le_value(bytes.subrange(1, 5)) as u32))
    } else {
        None
    }
}

/// The bytes of a note that arrives: its header, its details, and the block the sender may have named.
pub open spec fn info_bytes(
    header: Seq<u8>,
    details: Seq<u8>,
    block_hint: Option<BlockNumber>,
) -> Seq<u8> {
    header + details_bytes_of(details) + hint_bytes(block_hint)
}

/// The note that bytes hold: its header, its details, and the block the sender may have named.
pub open spec fn info_at(bytes: Seq<u8>) -> Option<
    (NoteHeaderInfo, Seq<u8>, Option<BlockNumber>),
> {
    match header_read_of(bytes) {
        None => None,
        Some((header, header_size)) => match details_at(bytes.skip(header_size as int)) {
            None => None,
            Some((details, size)) => match hint_at(bytes.skip((header_size + size) as int)) {
                None => None,
                Some(block_hint) => Some((header, details, block_hint)),
            },
        },
    }
}

/// A note is read back from its bytes, whatever follows them.
pub proof fn law_note_info_is_read_back(
    header_bytes: Seq<u8>,
    header: NoteHeaderInfo,
    details: Seq<u8>,
    block_hint: Option<BlockNumber>,
    rest: Seq<u8>,
)
    requires
        is_header(header_bytes, header),
        details.len() <= usize::MAX,
    ensures
        info_at(info_bytes(header_bytes, details, block_hint) + rest) == Some(
            (header, details, block_hint),
        ),
{
    let framed = details_bytes_of(details);
    let hint = hint_bytes(block_hint);
    let bytes = info_bytes(header_bytes, details, block_hint) + rest;
    assert(bytes =~= header_bytes + (framed + (hint + rest)));
    assert(bytes.skip(header_bytes.len() as int) =~= framed + (hint + rest));
    lemma_details_inverse(details, hint + rest);
    let tail = bytes.skip((header_bytes.len() + framed.len()) as int);
    assert(tail =~= hint + rest);
    if let Some(block_num) = block_hint {
        lemma2_to64();
        lemma_le_len(block_num as nat, 4);
        lemma_le_inverse(block_num as nat, 4);
        assert(pow2(32) == 0x1_0000_0000);
        assert(tail.subrange(1, 5) =~= le_bytes(block_num as nat, 4));
    }
}

impl NoteInfo {
    /// Returns the bytes of the note, given those of its header.
    pub fn to_bytes(&self, header_bytes: &Vec<u8>) -> (bytes: Vec<u8>)
        ensures
            bytes@ == info_bytes(header_bytes@, self.details_bytes@, self.block_hint),
    {
        let mut bytes: Vec<u8> = Vec::new();
        bytes.extend_from_slice(header_bytes.as_slice());
        write_details(&mut bytes, &self.details_bytes);
        match self.block_hint {
            None => {
                bytes.push(0);
            },
            Some(block_num) => {
                bytes.push(1);
                write_le(&mut bytes, block_num as u64, 4);
            },
        }
        assert(bytes@ =~= info_bytes(header_bytes@, self.details_bytes@, self.block_hint));
        bytes
    }

    /// Reads a note from bytes.
    pub fn read_from_bytes(bytes: &Vec<u8>) -> (info: Option<Self>)
        ensures
            match (info, info_at(bytes@)) {
                (Some(info), Some((header, details, block_hint))) => {
                    &&& info.header == header
                    &&& info.details_bytes@ == details
                    &&& info.block_hint == block_hint
                },
                (None, None) => true,
                _ => false,
            },
    {
        assert(bytes@.skip(0) =~= bytes@);
        let (header, left) = match read_header(bytes, 0) {
            Some(read) => read,
            None => {
                return None;
            },
        };
        let (details_bytes, end) = match read_details(bytes, bytes.len() - left) {
            Some(read) => read,
            None => {
                return None;
            },
        };
        let ghost tail = bytes@.skip(end as int);
        if end == bytes.len() {
            return None;
        }
        assert(tail[0] == bytes@[end as int]);
        if bytes[end] == 0 {
            return Some(NoteInfo { header, details_bytes, block_hint: None });
        }
        if bytes[end] != 1 || bytes.len() - end < 5 {
            return None;
        }
        proof {
            assert(bytes@.subrange(end + 1, end + 5) =~= tail.subrange(1, 5));
            lemma_le_bound(tail.subrange(1, 5));
            lemma2_to64();
        }
        match read_le(bytes, end + 1, 4) {
            Some(block_num) => Some(
                NoteInfo { header, details_bytes, block_hint: Some(block_num as u32) },
            ),
            None => None,
        }
    }
}

// RECEIVING
// ================================================================================================
/// A note that arrived, with details that fit its header.
#[derive(Clone, Copy, Debug, PartialEq, Eq, Structural)]
pub struct ReceivedNote {
    pub note_id: NoteId,
    pub details_commitment: NoteDetailsCommitment,
    pub tag: NoteTag,
    pub block_hint: Option<BlockNumber>,
}

/// The header commits to the details, which can be read.
pub open spec fn is_joined(
    header: NoteHeaderInfo,
    commitment: Option<NoteDetailsCommitment>,
) -> bool {
    commitment == Some(header.details_commitment)
}

/// Decides whether details fit a header, given the commitment to them.
pub fn fits_header(header: &NoteHeaderInfo, commitment: Option<NoteDetailsCommitment>) -> (fits:
    bool)
    ensures
        fits == is_joined(*header, commitment),
{
    match commitment {
        Some(commitment) => commitment == header.details_commitment,
        None => false,
    }
}

/// The note that arrived, if its details fit its header and its tag was asked for.
pub open spec fn received(info: NoteInfo, tags: Seq<NoteTag>) -> Option<ReceivedNote> {
    if is_joined(info.header, details_commitment_of(info.details_bytes@)) && tags.contains(
        info.header.tag,
    ) {
        Some(
            ReceivedNote {
                note_id: info.header.note_id,
                details_commitment: info.header.details_commitment,
                tag: info.header.tag,
                block_hint: info.block_hint,
            },
        )
    } else {
        None
    }
}

/// The ids of notes, by the commitments to their details.
pub open spec fn ids_by_commitment(
    before: Map<NoteDetailsCommitment, NoteId>,
    notes: Seq<ReceivedNote>,
) -> Map<NoteDetailsCommitment, NoteId>
    decreases notes.len(),
{
    if notes.len() == 0 {
        before
    } else {
        ids_by_commitment(before, notes.drop_last()).insert(
            notes.last().details_commitment,
            notes.last().note_id,
        )
    }
}

/// Returns the notes whose details fit their headers and whose tags were asked for, and remembers
/// their ids. The others are dropped, so that the cursor can move past them.
pub fn receive_notes(
    infos: &Vec<NoteInfo>,
    tags: &Vec<NoteTag>,
    id_by_commitment: &mut OrdMap<NoteDetailsCommitment, NoteId>,
) -> (notes: Vec<ReceivedNote>)
    ensures
        notes@ == present(infos@.map_values(|info: NoteInfo| received(info, tags@))),
        final(id_by_commitment)@ == ids_by_commitment(old(id_by_commitment)@, notes@),
{
    let ghost before = id_by_commitment@;
    let ghost all = infos@.map_values(|info: NoteInfo| received(info, tags@));
    let mut notes: Vec<ReceivedNote> = Vec::new();
    let mut i: usize = 0;
    while i < infos.len()
        invariant
            i <= infos.len(),
            all == infos@.map_values(|info: NoteInfo| received(info, tags@)),
            notes@ == present(all.take(i as int)),
            id_by_commitment@ == ids_by_commitment(before, notes@),
        decreases infos.len() - i,
    {
        let info = &infos[i];
        let ghost earlier = notes@;
        proof {
            assert(all.take(i + 1).drop_last() =~= all.take(i as int));
            assert(all.take(i + 1).last() == received(infos@[i as int], tags@));
        }
        let commitment = details_commitment(&info.details_bytes);
        if fits_header(&info.header, commitment) && contains_key(tags, &info.header.tag) {
            id_by_commitment.insert(info.header.details_commitment, info.header.note_id);
            let note = ReceivedNote {
                note_id: info.header.note_id,
                details_commitment: info.header.details_commitment,
                tag: info.header.tag,
                block_hint: info.block_hint,
            };
            notes.push(note);
            assert(notes@.drop_last() =~= earlier);
        }
        i += 1;
    }
    assert(all.take(i as int) =~= all);
    notes
}

/// Returns the positions of the notes that are screened: those whose tags are derived from accounts.
pub fn notes_to_screen(notes: &Vec<ReceivedNote>, account_tags: &OrdMap<NoteTag, ()>) -> (positions:
    Vec<usize>)
    ensures
        forall|k: int|
            0 <= k < positions@.len() ==> (#[trigger] positions@[k]) < notes@.len()
                && account_tags@.contains_key(notes@[positions@[k] as int].tag),
        forall|j: int, k: int|
            0 <= j < k < positions@.len() ==> (#[trigger] positions@[j]) < (#[trigger] positions@[k]),
        forall|i: int|
            0 <= i < notes@.len() && account_tags@.contains_key((#[trigger] notes@[i]).tag)
                ==> positions@.contains(i as usize),
{
    let mut positions: Vec<usize> = Vec::new();
    let mut i: usize = 0;
    while i < notes.len()
        invariant
            i <= notes.len(),
            forall|k: int|
                0 <= k < positions@.len() ==> (#[trigger] positions@[k]) < i
                    && account_tags@.contains_key(notes@[positions@[k] as int].tag),
            forall|j: int, k: int|
                0 <= j < k < positions@.len() ==> (#[trigger] positions@[j]) < (
                #[trigger] positions@[k]),
            forall|n: int|
                0 <= n < i && account_tags@.contains_key((#[trigger] notes@[n]).tag)
                    ==> positions@.contains(n as usize),
        decreases notes.len() - i,
    {
        if account_tags.contains(&notes[i].tag) {
            let ghost before = positions@;
            positions.push(i);
            proof {
                assert forall|n: int|
                    0 <= n < i + 1 && account_tags@.contains_key(
                        (#[trigger] notes@[n]).tag,
                    ) implies positions@.contains(n as usize) by {
                    if n < i {
                        assert(before.contains(n as usize));
                        let k = choose|k: int| 0 <= k < before.len() && before[k] == n as usize;
                        assert(positions@[k] == n as usize);
                    } else {
                        assert(positions@[before.len() as int] == i);
                    }
                }
            }
        }
        i += 1;
    }
    positions
}

/// The note is kept: its tag is not derived from an account, or an account can consume it. And no
/// transaction of the client is consuming it.
pub open spec fn is_kept(
    note: ReceivedNote,
    account_tags: Map<NoteTag, ()>,
    consumable: bool,
    processing: Map<NoteDetailsCommitment, ()>,
) -> bool {
    &&& !account_tags.contains_key(note.tag) || consumable
    &&& !processing.contains_key(note.details_commitment)
}

/// The notes that are kept.
pub open spec fn kept_of(
    notes: Seq<ReceivedNote>,
    account_tags: Map<NoteTag, ()>,
    consumable: Seq<bool>,
    processing: Map<NoteDetailsCommitment, ()>,
) -> Seq<ReceivedNote>
    decreases notes.len(),
{
    if notes.len() == 0 {
        Seq::empty()
    } else {
        let rest = kept_of(notes.drop_last(), account_tags, consumable.drop_last(), processing);
        if is_kept(notes.last(), account_tags, consumable.last(), processing) {
            rest.push(notes.last())
        } else {
            rest
        }
    }
}

/// Returns the notes that are kept, given of each whether an account can consume it, which counts for
/// the screened ones, and given which ones a transaction of the client is consuming.
pub fn keep_notes(
    notes: &Vec<ReceivedNote>,
    account_tags: &OrdMap<NoteTag, ()>,
    consumable: &Vec<bool>,
    processing: &OrdMap<NoteDetailsCommitment, ()>,
) -> (kept: Vec<ReceivedNote>)
    requires
        consumable@.len() == notes@.len(),
    ensures
        kept@ == kept_of(notes@, account_tags@, consumable@, processing@),
{
    let mut kept: Vec<ReceivedNote> = Vec::new();
    let mut i: usize = 0;
    while i < notes.len()
        invariant
            i <= notes.len(),
            consumable@.len() == notes@.len(),
            kept@ == kept_of(
                notes@.take(i as int),
                account_tags@,
                consumable@.take(i as int),
                processing@,
            ),
        decreases notes.len() - i,
    {
        let note = notes[i];
        proof {
            assert(notes@.take(i + 1).drop_last() =~= notes@.take(i as int));
            assert(notes@.take(i + 1).last() == note);
            assert(consumable@.take(i + 1).drop_last() =~= consumable@.take(i as int));
            assert(consumable@.take(i + 1).last() == consumable@[i as int]);
        }
        if (!account_tags.contains(&note.tag) || consumable[i]) && !processing.contains(
            &note.details_commitment,
        ) {
            kept.push(note);
        }
        i += 1;
    }
    assert(notes@.take(i as int) =~= notes@);
    assert(consumable@.take(i as int) =~= consumable@);
    kept
}

/// The block after which a note is looked for: the one the sender named, or some blocks before the
/// last one the client knows of.
pub open spec fn look_after(note: ReceivedNote, sync_height: BlockNumber) -> BlockNumber {
    match note.block_hint {
        Some(block_num) => block_num,
        None => if sync_height >= NOTE_LOOKBACK_BLOCKS {
            (sync_height - NOTE_LOOKBACK_BLOCKS) as u32
        } else {
            0
        },
    }
}

/// The file by which a note is imported.
pub open spec fn file_of(note: ReceivedNote, sync_height: BlockNumber) -> NoteFile {
    NoteFile::ExpectedNote {
        details_commitment: note.details_commitment,
        after_block_num: look_after(note, sync_height),
        tag: note.tag,
    }
}

/// Returns the files by which the notes are imported.
pub fn note_files(notes: &Vec<ReceivedNote>, sync_height: BlockNumber) -> (files: Vec<NoteFile>)
    ensures
        files@ == notes@.map_values(|note: ReceivedNote| file_of(note, sync_height)),
{
    let fallback: BlockNumber = sync_height.saturating_sub(NOTE_LOOKBACK_BLOCKS);
    let mut files: Vec<NoteFile> = Vec::new();
    let mut i: usize = 0;
    while i < notes.len()
        invariant
            i <= notes.len(),
            fallback == if sync_height >= NOTE_LOOKBACK_BLOCKS {
                (sync_height - NOTE_LOOKBACK_BLOCKS) as u32
            } else {
                0
            },
            files@.len() == i,
            forall|k: int| 0 <= k < i ==> #[trigger] files@[k] == file_of(notes@[k], sync_height),
        decreases notes.len() - i,
    {
        let note = notes[i];
        let after_block_num: BlockNumber = match note.block_hint {
            Some(block_num) => block_num,
            None => fallback,
        };
        files.push(
            NoteFile::ExpectedNote {
                details_commitment: note.details_commitment,
                after_block_num,
                tag: note.tag,
            },
        );
        i += 1;
    }
    files
}

/// The ids of the notes that were written.
pub open spec fn written_ids(
    written: Seq<NoteDetailsCommitment>,
    id_by_commitment: Map<NoteDetailsCommitment, NoteId>,
) -> Set<NoteId> {
    Set::new(
        |note_id: NoteId|
            exists|i: int|
                0 <= i < written.len() && id_by_commitment.contains_key(#[trigger] written[i])
                    && id_by_commitment[written[i]] == note_id,
    )
}

/// Returns the ids of the notes that were written, in ascending order and each of them once.
pub fn imported_ids(
    written: &Vec<NoteDetailsCommitment>,
    id_by_commitment: &OrdMap<NoteDetailsCommitment, NoteId>,
) -> (ids: Vec<NoteId>)
    ensures
        lists_set(ids@, written_ids(written@, id_by_commitment@)),
{
    let mut ids: OrdMap<NoteId, ()> = OrdMap::new();
    let mut i: usize = 0;
    while i < written.len()
        invariant
            i <= written.len(),
            forall|note_id: NoteId| #[trigger]
                ids@.contains_key(note_id) <==> exists|k: int|
                    0 <= k < i && id_by_commitment@.contains_key(#[trigger] written@[k])
                        && id_by_commitment@[written@[k]] == note_id,
        decreases written.len() - i,
    {
        let ghost before = ids@;
        if let Some(note_id) = id_by_commitment.get(&written[i]) {
            ids.insert(*note_id, ());
        }
        proof {
            assert forall|note_id: NoteId| #[trigger]
                ids@.contains_key(note_id) <==> exists|k: int|
                    0 <= k < i + 1 && id_by_commitment@.contains_key(#[trigger] written@[k])
                        && id_by_commitment@[written@[k]] == note_id by {
                assert(before.contains_key(note_id) <==> exists|k: int|
                    0 <= k < i && id_by_commitment@.contains_key(#[trigger] written@[k])
                        && id_by_commitment@[written@[k]] == note_id);
                assert(written@[i as int] == written@[i as int]);
            }
        }
        i += 1;
    }
    ids.keys()
}

} // verus!
