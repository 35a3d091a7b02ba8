//! The plain values the client works on: digests, identifiers, block numbers and block headers.
use vstd::prelude::*;

verus! {

/// Number of a block in the chain.
pub type BlockNumber = u32;

/// Account identifier, as the 128-bit integer that orders account ids.
pub type AccountId = u128;

/// Tag by which a note is requested.
pub type NoteTag = u32;

/// Identifier of a note.
pub type NoteId = Word;

/// Commitment to the details of a note, independent of its metadata.
pub type NoteDetailsCommitment = Word;

/// Nullifier of a note.
pub type Nullifier = Word;

/// Identifier of a transaction.
pub type TransactionId = Word;

/// Number of the first block of the chain.
pub const GENESIS: BlockNumber = 0;

/// A digest made of four field elements in canonical form.
#[derive(Clone, Copy, Debug, PartialEq, Eq, Structural)]
pub struct Word {
    pub e0: u64,
    pub e1: u64,
    pub e2: u64,
    pub e3: u64,
}

impl Word {
    /// The word whose four elements are zero.
    pub open spec fn spec_empty() -> Word {
        Word { e0: 0, e1: 0, e2: 0, e3: 0 }
    }

    /// Returns the word whose four elements are zero.
    pub fn empty() -> (word: Word)
        ensures
            word == Word::spec_empty(),
    {
        Word { e0: 0, e1: 0, e2: 0, e3: 0 }
    }

    /// Builds a word from its elements, lowest first.
    pub fn from_elements(elements: [u64; 4]) -> (word: Word)
        ensures
            word == (Word {
                e0: elements[0],
                e1: elements[1],
                e2: elements[2],
                e3: elements[3],
            }),
    {
        Word { e0: elements[0], e1: elements[1], e2: elements[2], e3: elements[3] }
    }

    /// Returns the elements of the word, lowest first.
    pub fn elements(&self) -> (elements: [u64; 4])
        ensures
            elements@ == seq![self.e0, self.e1, self.e2, self.e3],
    {
        [self.e0, self.e1, self.e2, self.e3]
    }
}

/// An account together with a block in which it was updated.
#[derive(Clone, Copy, Debug, PartialEq, Eq, Structural)]
pub struct AccountBlock {
    pub account_id: AccountId,
    pub block_num: BlockNumber,
}

/// What the client reads of a block header.
#[derive(Clone, Copy, Debug, PartialEq, Eq, Structural)]
pub struct BlockHeader {
    /// Number of the block.
    pub block_num: BlockNumber,
    /// Commitment to the whole header; the leaf of the block in the chain's mountain range.
    pub commitment: Word,
    /// Hash of the mountain range peaks over all earlier blocks.
    pub chain_commitment: Word,
    /// Root of the account tree after the block.
    pub account_root: Word,
    /// Root of the tree of the notes created in the block.
    pub note_root: Word,
    /// Commitment to the protocol configuration in force at the block.
    pub protocol_config_commitment: Word,
    /// Base fee charged for verifying a transaction; zero on a chain without fees.
    pub verification_base_fee: u32,
    /// Creation time of the block, in seconds.
    pub timestamp: u32,
}

} // verus!
