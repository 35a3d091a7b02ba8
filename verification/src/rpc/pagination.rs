//! Going through the pages of an answer, block by block.
use vstd::prelude::*;

use crate::rpc::errors::rpc_error::PaginationError;
use crate::types::BlockNumber;

verus! {

/// How many pages one request may take. An inconsistent node could otherwise send pages forever.
pub const MAX_ITERATIONS: u32 = 1000;

/// Where a request for a range of blocks stands.
#[derive(Clone, Copy, Debug, PartialEq, Eq, Structural)]
pub struct BlockPagination {
    /// The block at which the next page starts.
    pub current_block_from: BlockNumber,
    /// The last block of the range.
    pub block_to: BlockNumber,
    /// How many pages arrived.
    pub iterations: u32,
}

/// Whether another page is needed.
#[derive(Clone, Copy, Debug, PartialEq, Eq, Structural)]
pub enum PaginationResult {
    Continue,
    Done { chain_tip: BlockNumber, block_num: BlockNumber },
}

/// The last block there is to be asked for: the end of the range, or the chain tip.
pub open spec fn target_block(block_to: BlockNumber, chain_tip: BlockNumber) -> BlockNumber {
    if block_to <= chain_tip {
        block_to
    } else {
        chain_tip
    }
}

impl BlockPagination {
    /// Not more pages arrived than are allowed.
    pub open spec fn wf(self) -> bool {
        self.iterations <= MAX_ITERATIONS
    }

    /// Starts at the beginning of a range.
    pub fn new(block_from: BlockNumber, block_to: BlockNumber) -> (pagination: Self)
        ensures
            pagination.wf(),
            pagination == (BlockPagination {
                current_block_from: block_from,
                block_to,
                iterations: 0,
            }),
    {
        BlockPagination { current_block_from: block_from, block_to, iterations: 0 }
    }

    /// Returns the block at which the next page starts.
    pub fn current_block_from(&self) -> (block_num: BlockNumber)
        ensures
            block_num == self.current_block_from,
    {
        self.current_block_from
    }

    /// Returns the last block of the range.
    pub fn block_to(&self) -> (block_num: BlockNumber)
        ensures
            block_num == self.block_to,
    {
        self.block_to
    }

    /// Takes note of a page that ends at `block_num`, with the chain tip that came with it.
    pub fn advance(&mut self, block_num: BlockNumber, chain_tip: BlockNumber) -> (result: Result<
        PaginationResult,
        PaginationError,
    >)
        ensures
            old(self).wf() ==> final(self).wf(),
            final(self).block_to == old(self).block_to,
            if old(self).iterations >= MAX_ITERATIONS {
                &&& result == Err::<PaginationResult, _>(PaginationError::TooManyPages)
                &&& *final(self) == *old(self)
            } else {
                &&& final(self).iterations == old(self).iterations + 1
                &&& if block_num < old(self).current_block_from {
                    &&& result == Err::<PaginationResult, _>(PaginationError::WentBackwards)
                    &&& final(self).current_block_from == old(self).current_block_from
                } else if block_num >= target_block(old(self).block_to, chain_tip) {
                    &&& result == Ok::<_, PaginationError>(
                        PaginationResult::Done { chain_tip, block_num },
                    )
                    &&& final(self).current_block_from == old(self).current_block_from
                } else {
                    &&& result == Ok::<_, PaginationError>(PaginationResult::Continue)
                    &&& final(self).current_block_from == block_num + 1
                }
            },
    {
        if self.iterations >= MAX_ITERATIONS {
            return Err(PaginationError::TooManyPages);
        }
        self.iterations = self.iterations + 1;
        if block_num < self.current_block_from {
            return Err(PaginationError::WentBackwards);
        }
        let target: BlockNumber = if self.block_to <= chain_tip {
            self.block_to
        } else {
            chain_tip
        };
        if block_num >= target {
            return Ok(PaginationResult::Done { chain_tip, block_num });
        }
        self.current_block_from = block_num + 1;
        Ok(PaginationResult::Continue)
    }
}

/// The pages, each by its last block and the chain tip that came with it, can be gone through from
/// this state, and another page is needed after each of them.
pub open spec fn continues(
    pagination: BlockPagination,
    pages: Seq<(BlockNumber, BlockNumber)>,
) -> bool
    decreases pages.len(),
{
    if pages.len() == 0 {
        true
    } else {
        let (block_num, chain_tip) = pages[0];
        &&& pagination.iterations < MAX_ITERATIONS
        &&& pagination.current_block_from <= block_num < target_block(pagination.block_to, chain_tip)
        &&& continues(
            BlockPagination {
                current_block_from: (block_num + 1) as u32,
                iterations: (pagination.iterations + 1) as u32,
                ..pagination
            },
            pages.skip(1),
        )
    }
}

/// Whatever a node sends, a request ends: there are at most as many pages as are allowed, and not
/// more than there are blocks in the range.
pub proof fn law_pagination_ends(
    pagination: BlockPagination,
    pages: Seq<(BlockNumber, BlockNumber)>,
)
    requires
        pagination.wf(),
        continues(pagination, pages),
    ensures
        pagination.iterations + pages.len() <= MAX_ITERATIONS,
        pages.len() > 0 ==> pagination.current_block_from + pages.len() <= pagination.block_to,
    decreases pages.len(),
{
    if pages.len() > 0 {
        let (block_num, chain_tip) = pages[0];
        law_pagination_ends(
            BlockPagination {
                current_block_from: (block_num + 1) as u32,
                iterations: (pagination.iterations + 1) as u32,
                ..pagination
            },
            pages.skip(1),
        );
    }
}

} // verus!
