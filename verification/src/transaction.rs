//! Transactions submitted by this client and what became of them.
use vstd::prelude::*;

use crate::types::{AccountId, BlockNumber, Nullifier, TransactionId, Word};

verus! {

/// Why a submitted transaction was given up.
#[derive(Clone, Copy, Debug, PartialEq, Eq, Structural)]
pub enum DiscardCause {
    /// The transaction was submitted too many blocks ago.
    Stale,
    /// The expiration block of the transaction has passed.
    Expired,
    /// A note that the transaction consumes was consumed by another transaction.
    InputConsumed,
    /// The network moved the account to another state with the same nonce.
    Superseded,
    /// The transaction starts from a state that a discarded transaction would have produced.
    DiscardedInitialState,
}

/// Where a submitted transaction stands.
#[derive(Clone, Copy, Debug, PartialEq, Eq, Structural)]
pub enum TransactionStatus {
    /// Submitted, and not yet seen in a block.
    Pending,
    /// Included in a block.
    Committed { block_number: BlockNumber, commit_timestamp: u64 },
    /// Given up.
    Discarded(DiscardCause),
}

/// What the client remembers of a transaction it submitted.
#[derive(Debug)]
pub struct TransactionDetails {
    pub account_id: AccountId,
    pub init_account_state: Word,
    pub final_account_state: Word,
    pub input_note_nullifiers: Vec<Nullifier>,
    /// Sync height at which the transaction was submitted.
    pub submission_height: BlockNumber,
    /// First block that can no longer include the transaction is the one after this.
    pub expiration_block_num: BlockNumber,
}

/// A transaction submitted by this client.
#[derive(Debug)]
pub struct TransactionRecord {
    pub id: TransactionId,
    pub details: TransactionDetails,
    pub status: TransactionStatus,
}

impl TransactionRecord {
    /// The same transaction with another status.
    pub open spec fn with_status(self, status: TransactionStatus) -> TransactionRecord {
        TransactionRecord { status, ..self }
    }

    /// The transaction has been neither committed nor discarded.
    pub open spec fn is_pending(self) -> bool {
        self.status is Pending
    }

    /// The transaction after it was seen in a block: committed if it was pending.
    pub open spec fn committed(self, block_number: BlockNumber, commit_timestamp: u64) -> Self {
        if self.is_pending() {
            self.with_status(TransactionStatus::Committed { block_number, commit_timestamp })
        } else {
            self
        }
    }

    /// The transaction after it was given up: discarded if it was pending.
    pub open spec fn discarded(self, cause: DiscardCause) -> Self {
        if self.is_pending() {
            self.with_status(TransactionStatus::Discarded(cause))
        } else {
            self
        }
    }

    /// Marks a pending transaction as included in a block. Returns true if it was pending.
    pub fn commit_transaction(&mut self, commit_height: BlockNumber, commit_timestamp: u64) -> (done:
        bool)
        ensures
            done == old(self).is_pending(),
            *final(self) == old(self).committed(commit_height, commit_timestamp),
    {
        match self.status {
            TransactionStatus::Pending => {
                self.status = TransactionStatus::Committed {
                    block_number: commit_height,
                    commit_timestamp,
                };
                true
            },
            _ => false,
        }
    }

    /// Gives up a pending transaction. Returns true if it was pending.
    pub fn discard_transaction(&mut self, cause: DiscardCause) -> (done: bool)
        ensures
            done == old(self).is_pending(),
            *final(self) == old(self).discarded(cause),
    {
        match self.status {
            TransactionStatus::Pending => {
                self.status = TransactionStatus::Discarded(cause);
                true
            },
            _ => false,
        }
    }
}

} // verus!
