//! Records of the client's store.
use vstd::prelude::*;

use crate::types::{BlockNumber, NoteDetailsCommitment, NoteId, NoteTag, Nullifier};

verus! {

/// Where an input note stands.
#[derive(Clone, Copy, Debug, PartialEq, Eq, Structural)]
pub enum InputNoteState {
    /// The note is expected to be created, under the tag if there is one.
    Expected { after_block_num: BlockNumber, tag: Option<NoteTag> },
    /// The note comes with an inclusion proof that has not been checked.
    Unverified,
    /// The inclusion proof of the note was checked.
    Committed,
    /// The inclusion proof of the note is wrong.
    Invalid,
    /// A transaction of this client that consumes the note is in flight.
    Processing,
    /// The note was consumed.
    Consumed,
}

/// What the store knows of a note that may be consumed.
#[derive(Clone, Copy, Debug, PartialEq, Eq, Structural)]
pub struct InputNoteRecord {
    pub details_commitment: NoteDetailsCommitment,
    /// The id of the note. It depends on the metadata, which may not be known.
    pub note_id: Option<NoteId>,
    /// The nullifier of the note. It depends on the metadata too.
    pub nullifier: Option<Nullifier>,
    /// The block the inclusion proof is for, if there is one.
    pub inclusion_block: Option<BlockNumber>,
    pub state: InputNoteState,
}

impl InputNoteRecord {
    /// Returns true if a transaction of this client that consumes the note is in flight.
    pub fn is_processing(&self) -> (processing: bool)
        ensures
            processing == (self.state is Processing),
    {
        matches!(self.state, InputNoteState::Processing)
    }

    /// Returns true if the inclusion proof of the note was checked.
    pub fn is_committed(&self) -> (committed: bool)
        ensures
            committed == (self.state is Committed),
    {
        matches!(self.state, InputNoteState::Committed)
    }
}

} // verus!
