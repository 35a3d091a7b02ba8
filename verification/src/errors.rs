//! Why the client refuses something.
use vstd::prelude::*;

use crate::types::{AccountId, BlockNumber, NoteDetailsCommitment, NoteId, Word};

verus! {

/// How an answer of the node disagrees with the chain the client follows.
#[allow(inconsistent_fields)]
#[derive(Clone, Copy, Debug, PartialEq, Eq, Structural)]
pub enum ChainValidationError {
    /// The header sent with a chain delta is not that of the block the delta leads to.
    HeaderNotAtTarget { header: BlockNumber, block_to: BlockNumber },
    /// The chain delta does not start at the requested block.
    StartMismatch { expected: BlockNumber, received: BlockNumber },
    /// The chain delta leads to a block before the requested one.
    BehindCurrent { current: BlockNumber, block_to: BlockNumber },
    /// The header of the chain tip does not carry valid validator signatures.
    InvalidSignatures { block_num: BlockNumber },
    /// A note block lies outside of the requested range.
    NoteBlockOutOfRange { block_num: BlockNumber, current: BlockNumber, chain_tip: BlockNumber },
    /// A transaction lies outside of the requested range.
    TransactionOutOfRange { block_num: BlockNumber, current: BlockNumber, chain_tip: BlockNumber },
    /// The peaks after the chain delta do not hash to what the header commits to.
    PeaksMismatch { computed: Word, expected: Word },
    /// An account proof is for another block than requested.
    ProofBlockMismatch { expected: BlockNumber, received: BlockNumber },
    /// An account proof is for another account than requested.
    ProofAccountMismatch { expected: AccountId, received: AccountId },
    /// An account proof does not open under the account root of the block.
    ProofNotUnderRoot { account_id: AccountId, block_num: BlockNumber },
    /// The proof of a public account carries no details.
    MissingAccountDetails { account_id: AccountId },
}

/// Why a step of a sync failed.
#[derive(Clone, Copy, Debug, PartialEq, Eq, Structural)]
pub enum SyncError {
    /// An answer of the node disagrees with the chain.
    Validation(ChainValidationError),
    /// The chain delta does not fit the mountain range of the client.
    InvalidDelta,
    /// The mountain range cannot take another leaf.
    ChainTooLong,
    /// The path of a block does not lead to the mountain range of the client.
    BlockNotAuthenticated { block_num: BlockNumber },
    /// The mountain range has more leaves than there are block numbers.
    InvalidPartialMmrForest,
    /// An update was to be built although note blocks are still to be screened.
    UnscreenedNoteBlocks,
}

/// Why a note cannot be imported.
#[derive(Clone, Copy, Debug, PartialEq, Eq, Structural)]
pub enum NoteImportError {
    /// A transaction of the client is consuming the note.
    NoteIsProcessing { details_commitment: NoteDetailsCommitment },
    /// The node returned no notes.
    NothingFetched,
    /// The node does not have a note that was asked for.
    NotFoundOnChain { note_id: NoteId },
    /// The node returned a note that was not asked for.
    NotRequested { note_id: NoteId },
    /// The note is private, and its details are not known.
    NoteIsPrivate { note_id: NoteId },
}

/// Why a call of the client failed.
#[derive(Debug)]
pub enum ClientError {
    /// A step of a sync failed.
    Sync(SyncError),
    /// A note could not be imported.
    NoteImport(NoteImportError),
    /// A note could not be screened.
    NoteScreener(String),
}

} // verus!
