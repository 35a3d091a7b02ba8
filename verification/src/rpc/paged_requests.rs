//! Requests that are split by the limits of a node, and whose answers come in pages.
use vstd::prelude::*;

use crate::collections::{chunk_of, chunks, OrdMap};
use crate::rpc::domain::account::SlotId;
use crate::rpc::domain::note::{NullifierUpdate, SyncNotesBlock};
use crate::rpc::domain::sync::BlockRange;
use crate::rpc::domain::transaction::TransactionRecord;
use crate::rpc::errors::rpc_error::PaginationError;
use crate::rpc::grpc_client::{
    all_added, blocks_view, is_page_added, merge_note_block, merge_nullifiers,
    merge_storage_page, merge_vault_page, AccountVaultInfo, StorageMapInfo,
};
use crate::rpc::pagination::{target_block, BlockPagination, PaginationResult, MAX_ITERATIONS};
use crate::sync::account_updates::AccountVaultPatch;
use crate::types::{BlockNumber, Word};

verus! {

/// Where a page ends.
#[derive(Clone, Copy, Debug, PartialEq, Eq, Structural)]
pub struct PageInfo {
    pub chain_tip: BlockNumber,
    pub block_num: BlockNumber,
}

/// Why a page cannot be taken.
#[derive(Clone, Copy, Debug, PartialEq, Eq, Structural)]
pub enum PageError {
    /// The page does not say where it ends.
    MissingPageInfo,
    Pagination(PaginationError),
}

/// A request for a range of blocks and for a list of keys. There is one part for each chunk of keys
/// that a node accepts at once, and each part is answered in pages.
#[derive(Debug)]
pub struct PagedRequests<K> {
    pub parts: Vec<Vec<K>>,
    /// The part that is being answered.
    pub current: usize,
    pub pagination: BlockPagination,
    pub block_from: BlockNumber,
    pub block_to: BlockNumber,
}

/// Where the pages of the current part stand after one more page: still in this part, or at the
/// start of the next one.
pub open spec fn step(
    current: int,
    pagination: BlockPagination,
    block_from: BlockNumber,
    page: PageInfo,
) -> Result<(int, BlockPagination), PageError> {
    if pagination.iterations >= MAX_ITERATIONS {
        Err(PageError::Pagination(PaginationError::TooManyPages))
    } else if page.block_num < pagination.current_block_from {
        Err(PageError::Pagination(PaginationError::WentBackwards))
    } else if page.block_num >= target_block(pagination.block_to, page.chain_tip) {
        Ok(
            (
                current + 1,
                BlockPagination {
                    current_block_from: block_from,
                    block_to: pagination.block_to,
                    iterations: 0,
                },
            ),
        )
    } else {
        Ok(
            (
                current,
                BlockPagination {
                    current_block_from: (page.block_num + 1) as u32,
                    block_to: pagination.block_to,
                    iterations: (pagination.iterations + 1) as u32,
                },
            ),
        )
    }
}

/// Where the pages stand after one that was refused: a page that leads back counts, and no other.
pub open spec fn refused(pagination: BlockPagination, error: PageError) -> BlockPagination {
    if error == PageError::Pagination(PaginationError::WentBackwards) {
        BlockPagination { iterations: (pagination.iterations + 1) as u32, ..pagination }
    } else {
        pagination
    }
}

impl<K: Copy> PagedRequests<K> {
    /// The pages are of one of the parts, and of the range.
    pub open spec fn wf(self) -> bool {
        &&& self.current <= self.parts@.len()
        &&& self.pagination.wf()
        &&& self.pagination.block_to == self.block_to
    }

    /// Splits a request. There is none if no keys are asked for.
    pub fn new(
        keys: &Vec<K>,
        limit: usize,
        block_from: BlockNumber,
        block_to: BlockNumber,
    ) -> (requests: Self)
        requires
            limit > 0,
        ensures
            requests.wf(),
            requests.current == 0,
            requests.block_from == block_from,
            requests.block_to == block_to,
            requests.pagination == (BlockPagination {
                current_block_from: block_from,
                block_to,
                iterations: 0,
            }),
            requests.parts@.len() == (keys@.len() + limit - 1) / limit as int,
            forall|n: int|
                0 <= n < requests.parts@.len() ==> (#[trigger] requests.parts@[n])@ == chunk_of(
                    keys@,
                    limit as int,
                    n,
                ),
    {
        PagedRequests {
            parts: chunks(keys, limit),
            current: 0,
            pagination: BlockPagination::new(block_from, block_to),
            block_from,
            block_to,
        }
    }

    /// Returns the keys and the range to be asked for next; nothing if all parts are answered.
    pub fn next_request(&self) -> (request: Option<(&Vec<K>, BlockRange)>)
        requires
            self.wf(),
        ensures
            match request {
                Some((keys, range)) => {
                    &&& self.current < self.parts@.len()
                    &&& *keys == self.parts@[self.current as int]
                    &&& range.block_from == self.pagination.current_block_from
                    &&& range.block_to == self.block_to
                },
                None => self.current == self.parts@.len(),
            },
    {
        if self.current == self.parts.len() {
            return None;
        }
        Some(
            (
                &self.parts[self.current],
                BlockRange {
                    block_from: self.pagination.current_block_from(),
                    block_to: self.block_to,
                },
            ),
        )
    }

    /// Takes note of a page.
    pub fn advance(&mut self, page: PageInfo) -> (done: Result<(), PageError>)
        requires
            old(self).wf(),
            old(self).current < old(self).parts@.len(),
        ensures
            final(self).wf(),
            final(self).parts == old(self).parts,
            final(self).block_from == old(self).block_from,
            final(self).block_to == old(self).block_to,
            match step(
                old(self).current as int,
                old(self).pagination,
                old(self).block_from,
                page,
            ) {
                Ok((current, pagination)) => {
                    &&& done is Ok
                    &&& final(self).current == current
                    &&& final(self).pagination == pagination
                },
                Err(error) => {
                    &&& done == Err::<(), _>(error)
                    &&& final(self).current == old(self).current
                    &&& final(self).pagination == refused(old(self).pagination, error)
                },
            },
    {
        match self.pagination.advance(page.block_num, page.chain_tip) {
            Ok(PaginationResult::Continue) => Ok(()),
            Ok(PaginationResult::Done { .. }) => {
                self.pagination = BlockPagination::new(self.block_from, self.block_to);
                assert(self.current < self.parts.len());
                self.current = self.current + 1;
                Ok(())
            },
            Err(error) => Err(PageError::Pagination(error)),
        }
    }

    /// Takes a page of note blocks: adds the blocks, and goes on behind the page.
    pub fn take_note_page(
        &mut self,
        merged_blocks: &mut OrdMap<BlockNumber, SyncNotesBlock>,
        page: Option<PageInfo>,
        blocks: Vec<SyncNotesBlock>,
    ) -> (done: Result<(), PageError>)
        requires
            old(self).wf(),
            old(self).current < old(self).parts@.len(),
        ensures
            final(self).wf(),
            final(self).parts == old(self).parts,
            final(self).block_from == old(self).block_from,
            final(self).block_to == old(self).block_to,
            match page {
                None => {
                    &&& done == Err::<(), _>(PageError::MissingPageInfo)
                    &&& final(merged_blocks)@ == old(merged_blocks)@
                    &&& *final(self) == *old(self)
                },
                Some(page) => {
                    &&& blocks_view(final(merged_blocks)@) == all_added(
                        blocks_view(old(merged_blocks)@),
                        blocks@,
                    )
                    &&& match step(
                        old(self).current as int,
                        old(self).pagination,
                        old(self).block_from,
                        page,
                    ) {
                        Ok((current, pagination)) => {
                            &&& done is Ok
                            &&& final(self).current == current
                            &&& final(self).pagination == pagination
                        },
                        Err(error) => {
                            &&& done == Err::<(), _>(error)
                            &&& final(self).current == old(self).current
                            &&& final(self).pagination == refused(old(self).pagination, error)
                        },
                    }
                },
            },
    {
        let page = match page {
            Some(page) => page,
            None => {
                return Err(PageError::MissingPageInfo);
            },
        };
        let ghost all = blocks@;
        let ghost before = blocks_view(merged_blocks@);
        let ghost mut n: int = 0;
        for block in iter: blocks
            invariant
                iter.seq() == all,
                n == iter.index(),
                blocks_view(merged_blocks@) == all_added(before, all.take(n)),
        {
            proof {
                assert(all.take(n + 1).drop_last() =~= all.take(n));
                assert(all.take(n + 1).last() == block);
                assert(all[n] == block);
                n = n + 1;
            }
            merge_note_block(merged_blocks, block);
        }
        assert(all.take(n) =~= all);
        self.advance(page)
    }

    /// Takes a page of nullifiers: adds them, and goes on behind the page.
    pub fn take_nullifier_page(
        &mut self,
        all_nullifiers: &mut OrdMap<NullifierUpdate, ()>,
        page: Option<PageInfo>,
        batch: &Vec<NullifierUpdate>,
    ) -> (done: Result<(), PageError>)
        requires
            old(self).wf(),
            old(self).current < old(self).parts@.len(),
        ensures
            final(self).wf(),
            final(self).parts == old(self).parts,
            final(self).block_from == old(self).block_from,
            final(self).block_to == old(self).block_to,
            final(all_nullifiers)@.dom() == old(all_nullifiers)@.dom().union(batch@.to_set()),
            match page {
                None => {
                    &&& done == Err::<(), _>(PageError::MissingPageInfo)
                    &&& *final(self) == *old(self)
                },
                Some(page) => match step(
                    old(self).current as int,
                    old(self).pagination,
                    old(self).block_from,
                    page,
                ) {
                    Ok((current, pagination)) => {
                        &&& done is Ok
                        &&& final(self).current == current
                        &&& final(self).pagination == pagination
                    },
                    Err(error) => {
                        &&& done == Err::<(), _>(error)
                        &&& final(self).current == old(self).current
                        &&& final(self).pagination == refused(old(self).pagination, error)
                    },
                },
            },
    {
        merge_nullifiers(all_nullifiers, batch);
        match page {
            Some(page) => self.advance(page),
            None => Err(PageError::MissingPageInfo),
        }
    }

    /// Takes a page of transactions: appends them, and goes on behind the page.
    pub fn take_transaction_page(
        &mut self,
        transactions: &mut Vec<TransactionRecord>,
        page: Option<PageInfo>,
        records: Vec<TransactionRecord>,
    ) -> (done: Result<(), PageError>)
        requires
            old(self).wf(),
            old(self).current < old(self).parts@.len(),
        ensures
            final(self).wf(),
            final(self).parts == old(self).parts,
            final(self).block_from == old(self).block_from,
            final(self).block_to == old(self).block_to,
            match page {
                None => {
                    &&& done == Err::<(), _>(PageError::MissingPageInfo)
                    &&& final(transactions)@ == old(transactions)@
                    &&& *final(self) == *old(self)
                },
                Some(page) => {
                    &&& final(transactions)@ == old(transactions)@ + records@
                    &&& match step(
                        old(self).current as int,
                        old(self).pagination,
                        old(self).block_from,
                        page,
                    ) {
                        Ok((current, pagination)) => {
                            &&& done is Ok
                            &&& final(self).current == current
                            &&& final(self).pagination == pagination
                        },
                        Err(error) => {
                            &&& done == Err::<(), _>(error)
                            &&& final(self).current == old(self).current
                            &&& final(self).pagination == refused(old(self).pagination, error)
                        },
                    }
                },
            },
    {
        let page = match page {
            Some(page) => page,
            None => {
                return Err(PageError::MissingPageInfo);
            },
        };
        let mut records = records;
        transactions.append(&mut records);
        self.advance(page)
    }
}

// ONE ACCOUNT
// ================================================================================================
/// What became of a request about one account after one more page: whether it is answered, or why it
/// cannot be, and where the pages stand.
pub open spec fn after_page(
    pagination: BlockPagination,
    block_num: BlockNumber,
    chain_tip: BlockNumber,
    result: Result<PaginationResult, PaginationError>,
    after: BlockPagination,
) -> bool {
    let page = PageInfo { chain_tip, block_num };
    match step(0, pagination, pagination.current_block_from, page) {
        Ok((part, next)) => if part == 0 {
            result == Ok::<_, PaginationError>(PaginationResult::Continue) && after == next
        } else {
            &&& result == Ok::<_, PaginationError>(PaginationResult::Done { chain_tip, block_num })
            &&& after == (BlockPagination {
                iterations: (pagination.iterations + 1) as u32,
                ..pagination
            })
        },
        Err(PageError::Pagination(error)) => {
            &&& result == Err::<PaginationResult, _>(error)
            &&& after == refused(pagination, PageError::Pagination(error))
        },
        Err(PageError::MissingPageInfo) => false,
    }
}

/// Takes a page of map entries: adds them, and goes on behind the page.
pub fn take_storage_page(
    pagination: &mut BlockPagination,
    map_entries: &mut OrdMap<SlotId, OrdMap<Word, Word>>,
    page: StorageMapInfo,
) -> (result: Result<PaginationResult, PaginationError>)
    ensures
        old(pagination).wf() ==> final(pagination).wf(),
        final(pagination).block_to == old(pagination).block_to,
        is_page_added(old(map_entries)@, page.map_entries@, final(map_entries)@),
        after_page(
            *old(pagination),
            page.block_number,
            page.chain_tip,
            result,
            *final(pagination),
        ),
{
    merge_storage_page(map_entries, page.map_entries);
    pagination.advance(page.block_number, page.chain_tip)
}

/// Takes a page of changed assets: adds them, and goes on behind the page.
pub fn take_vault_page(
    pagination: &mut BlockPagination,
    vault_patch: &mut AccountVaultPatch,
    page: AccountVaultInfo,
) -> (result: Result<PaginationResult, PaginationError>)
    ensures
        old(pagination).wf() ==> final(pagination).wf(),
        final(pagination).block_to == old(pagination).block_to,
        final(vault_patch).assets@ == old(vault_patch).assets@.union_prefer_right(
            page.vault_patch.assets@,
        ),
        after_page(
            *old(pagination),
            page.block_number,
            page.chain_tip,
            result,
            *final(pagination),
        ),
{
    merge_vault_page(vault_patch, page.vault_patch);
    pagination.advance(page.block_number, page.chain_tip)
}

} // verus!
