//! Transactions as a node reports them.
use vstd::prelude::*;

use crate::types::{AccountId, BlockNumber, NoteId, Nullifier, TransactionId, Word};

verus! {

/// The header of a transaction that was included in a block.
#[derive(Debug)]
pub struct TransactionHeader {
    pub id: TransactionId,
    /// The account the transaction was executed against.
    pub account_id: AccountId,
    /// The commitment to the account's state before the transaction.
    pub initial_state_commitment: Word,
    /// The commitment to the account's state after the transaction.
    pub final_state_commitment: Word,
    /// Nullifiers of the notes the transaction consumed, in the order it consumed them.
    pub input_nullifiers: Vec<Nullifier>,
}

/// A reference to a public note that a transaction consumed.
#[derive(Clone, Copy, Debug, PartialEq, Eq, Structural)]
pub struct ConsumedNoteRef {
    pub nullifier: Nullifier,
    pub note_id: NoteId,
}

/// A transaction together with the block it was included in.
#[derive(Debug)]
pub struct TransactionRecord {
    pub block_num: BlockNumber,
    pub transaction_header: TransactionHeader,
    /// Ids of the output notes that carry an inclusion proof.
    pub output_notes: Vec<NoteId>,
    /// Ids of the output notes that were consumed within the batch that created them.
    pub erased_output_notes: Vec<NoteId>,
    /// References to consumed notes whose nullifiers the header commits to.
    pub consumed_note_refs: Vec<ConsumedNoteRef>,
}

impl TransactionHeader {
    /// The transaction leaves the state of its account as it was.
    pub open spec fn keeps_state(self) -> bool {
        self.initial_state_commitment == self.final_state_commitment
    }
}

} // verus!
