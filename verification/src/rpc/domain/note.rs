//! Notes as a node reports them.
use miden_protocol::account::AccountId as ProtocolAccountId;
use miden_protocol::note::{
    NoteAttachmentHeader, NoteAttachmentScheme, NoteDetailsCommitment as ProtocolDetailsCommitment,
    NoteId as ProtocolNoteId, NoteMetadata as ProtocolMetadata, NoteType as ProtocolNoteType,
    PartialNoteMetadata,
};
use miden_protocol::{Felt, Word as ProtocolWord};
use vstd::prelude::*;

use crate::collections::OrdMap;
use crate::types::{
    AccountId, BlockHeader, BlockNumber, NoteDetailsCommitment, NoteId, NoteTag, Nullifier, Word,
};

verus! {

/// Whether the content of a note is on the chain.
#[derive(Clone, Copy, Debug, PartialEq, Eq, Structural)]
pub enum NoteType {
    Public,
    Private,
}

/// The schemes of the attachments of a note; zero stands for no attachment.
#[derive(Clone, Copy, Debug, PartialEq, Eq, Structural)]
pub struct AttachmentSchemes {
    pub s0: u16,
    pub s1: u16,
    pub s2: u16,
    pub s3: u16,
}

impl AttachmentSchemes {
    /// Returns the schemes of a note without attachments.
    pub fn none() -> (schemes: Self)
        ensures
            schemes == (AttachmentSchemes { s0: 0, s1: 0, s2: 0, s3: 0 }),
    {
        AttachmentSchemes { s0: 0, s1: 0, s2: 0, s3: 0 }
    }

    /// Returns the schemes in order.
    pub fn all(&self) -> (schemes: [u16; 4])
        ensures
            schemes@ == seq![self.s0, self.s1, self.s2, self.s3],
    {
        [self.s0, self.s1, self.s2, self.s3]
    }
}

/// Metadata of a note.
#[derive(Clone, Copy, Debug, PartialEq, Eq, Structural)]
pub struct NoteMetadata {
    pub sender: AccountId,
    pub note_type: NoteType,
    pub tag: NoteTag,
    pub attachment_schemes: AttachmentSchemes,
    /// Commitment to the attachments of the note.
    pub attachments_commitment: Word,
}

/// The id of the note with the details and the metadata; `None` if the sender is not an account id.
pub uninterp spec fn note_id_of(
    details_commitment: NoteDetailsCommitment,
    metadata: NoteMetadata,
) -> Option<NoteId>;

/// `NoteId::new`: the id of the note with the details and the metadata, which `NoteMetadata::from_parts`
/// puts together. The hash that makes the id is only named.
#[verifier::external_body]
pub(crate) fn note_id(details_commitment: NoteDetailsCommitment, metadata: &NoteMetadata) -> (id: Option<
    NoteId,
>)
    ensures
        id == note_id_of(details_commitment, *metadata),
{
    let sender = ProtocolAccountId::try_from(metadata.sender).ok()?;
    let note_type = match metadata.note_type {
        NoteType::Public => ProtocolNoteType::Public,
        NoteType::Private => ProtocolNoteType::Private,
    };
    let partial = PartialNoteMetadata::new(sender, note_type).with_tag(metadata.tag.into());
    let headers = metadata
        .attachment_schemes
        .all()
        .map(|scheme| NoteAttachmentHeader::new_maybe(NoteAttachmentScheme::new(scheme).ok()));
    let [details, attachments] = [details_commitment, metadata.attachments_commitment]
        .map(|word| ProtocolWord::new(word.elements().map(Felt::new_unchecked)));
    let full = ProtocolMetadata::from_parts(partial, headers, attachments);
    let id = ProtocolNoteId::new(ProtocolDetailsCommitment::from_raw(details), &full);
    Some(Word::from_elements(id.as_word().into_elements().map(|e| e.as_canonical_u64())))
}

/// Shows that a note was created in a block.
#[derive(Debug)]
pub struct NoteInclusionProof {
    pub block_num: BlockNumber,
    /// Position of the note in the note tree of the block.
    pub node_index: u32,
    /// The path from the note to the root of the note tree.
    pub note_path: Vec<Word>,
}

/// A note that was created in a block, without its details.
#[derive(Debug)]
pub struct CommittedNote {
    pub note_id: NoteId,
    pub metadata: NoteMetadata,
    pub inclusion_proof: NoteInclusionProof,
    /// The attachments, if they came with the note.
    pub attachments: Option<Vec<u8>>,
}

/// The notes of a block that match a request, by id.
#[derive(Debug)]
pub struct SyncNotesBlock {
    pub block_header: BlockHeader,
    /// The path from the block to a peak of the chain's mountain range.
    pub mmr_path: Vec<Word>,
    pub notes: OrdMap<NoteId, CommittedNote>,
}

/// A note that was fetched by its id.
#[derive(Clone, Copy, Debug, PartialEq, Eq, Structural)]
pub enum FetchedNote {
    /// A public note: its content hashes to the id and the nullifier.
    Public { note_id: NoteId, nullifier: Nullifier, block_num: BlockNumber },
    /// A private note, of which the content is not known.
    Private { note_id: NoteId, block_num: BlockNumber },
}

impl FetchedNote {
    /// The id of the note.
    pub open spec fn note_id(self) -> NoteId {
        match self {
            FetchedNote::Public { note_id, .. } => note_id,
            FetchedNote::Private { note_id, .. } => note_id,
        }
    }

    /// Returns the id of the note.
    pub fn id(&self) -> (id: NoteId)
        ensures
            id == self.note_id(),
    {
        match self {
            FetchedNote::Public { note_id, .. } => *note_id,
            FetchedNote::Private { note_id, .. } => *note_id,
        }
    }
}

/// The script of a note.
#[derive(Debug)]
pub struct NoteScript {
    /// The hash of the program.
    pub root: Word,
    pub serialized: Vec<u8>,
}

/// A nullifier that was recorded in a block.
#[derive(Clone, Copy, Debug, PartialEq, Eq, Structural)]
pub struct NullifierUpdate {
    pub nullifier: Nullifier,
    pub block_num: BlockNumber,
}

/// The 16 most significant bits of a nullifier.
pub open spec fn prefix_of(nullifier: Nullifier) -> u16 {
    (nullifier.e3 as int / 0x1_0000_0000_0000) as u16
}

/// Returns the 16 most significant bits of a nullifier, by which nullifiers are requested.
pub fn nullifier_prefix(nullifier: &Nullifier) -> (prefix: u16)
    ensures
        prefix == prefix_of(*nullifier),
{
    (nullifier.e3 / 0x1_0000_0000_0000) as u16
}

} // verus!
