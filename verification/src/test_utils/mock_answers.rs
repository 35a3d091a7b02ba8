//! How a mock node makes blocks, and answers requests for accounts.
use vstd::prelude::*;

use crate::account::{is_account_id_of, is_public_of};
use crate::collections::OrdMap;
use crate::mmr::max_leaves;
use crate::rpc::domain::account::{SlotId, ACCOUNT_TREE_DEPTH};
use crate::rpc::domain::account_proof::{
    AccountProof, AccountStateAt, GetAccountRequest, StorageMapFetch,
};
use crate::rpc::domain::note::NullifierUpdate;
use crate::rpc::errors::rpc_error::RpcError;
use crate::rpc::grpc_client::{
    merge_storage_page, merge_vault_page, AccountVaultInfo, StorageMapInfo,
};
use crate::sync::account_updates::AccountVaultPatch;
use crate::test_utils::mock::{
    commitments, commitments_of, updates_view, MockRpcApi, PAGINATION_BLOCK_LIMIT,
};
use crate::test_utils::mock_account::{
    absent_account, account_opened_of, can_serve, is_details_of, is_state_among, tree_entries,
    MockAccountState,
};
use crate::test_utils::mock_chain::{
    chain_changes, law_pages_join, lemma_empty_range, lemma_merged_with_none, lemma_page_added,
    maps_view, MockBlock, MockChainNote,
};
use crate::text::{decimal, decimal_of};
use crate::types::{AccountId, BlockNumber, NoteId, Word};

verus! {

// MAKING BLOCKS
// ================================================================================================
/// A block that was proven, with what it leads to.
#[derive(Debug)]
pub struct ProvenBlock {
    pub block: MockBlock,
    /// The accounts after the block.
    pub accounts: OrdMap<AccountId, MockAccountState>,
    /// The notes that the block creates.
    pub notes: OrdMap<NoteId, MockChainNote>,
    /// The nullifiers that the block records.
    pub nullifiers: Vec<NullifierUpdate>,
}

impl ProvenBlock {
    /// The block is the next one after `tip`.
    pub open spec fn follows(self, tip: int) -> bool {
        self.block.header.block_num == tip + 1
    }
}

/// The notes on the chain once blocks were appended.
pub open spec fn notes_after(
    notes: Map<NoteId, MockChainNote>,
    proven: Seq<ProvenBlock>,
) -> Map<NoteId, MockChainNote>
    decreases proven.len(),
{
    if proven.len() == 0 {
        notes
    } else {
        notes_after(notes, proven.drop_last()).union_prefer_right(proven.last().notes@)
    }
}

/// The nullifiers on the chain once blocks were appended.
pub open spec fn nullifiers_after(
    nullifiers: Seq<NullifierUpdate>,
    proven: Seq<ProvenBlock>,
) -> Seq<NullifierUpdate>
    decreases proven.len(),
{
    if proven.len() == 0 {
        nullifiers
    } else {
        nullifiers_after(nullifiers, proven.drop_last()) + proven.last().nullifiers@
    }
}

impl MockRpcApi {
    /// Appends the next block, and returns the accounts before it.
    fn append_block(&mut self, proven: ProvenBlock) -> (accounts: OrdMap<AccountId, MockAccountState>)
        requires
            old(self).wf(),
            old(self).chain.blocks@.len() < max_leaves(),
            proven.follows(old(self).chain.tip()),
        ensures
            final(self).wf(),
            accounts == old(self).chain.accounts,
            final(self).chain.blocks@ == old(self).chain.blocks@.push(proven.block),
            final(self).chain.accounts == proven.accounts,
            final(self).chain.notes@ == old(self).chain.notes@.union_prefer_right(proven.notes@),
            final(self).chain.nullifiers@ == old(self).chain.nullifiers@ + proven.nullifiers@,
            final(self).chain.protocol_config == old(self).chain.protocol_config,
            *final(self) == (MockRpcApi { chain: final(self).chain, ..*old(self) }),
    {
        let ghost blocks = self.chain.blocks@;
        let ProvenBlock { block, mut accounts, notes, mut nullifiers } = proven;
        std::mem::swap(&mut self.chain.accounts, &mut accounts);
        self.chain.notes.insert_all(notes);
        self.chain.nullifiers.append(&mut nullifiers);
        self.chain.blocks.push(block);
        proof {
            let longer = self.chain.blocks@;
            assert forall|i: int| 0 <= i < longer.len() implies (#[trigger] longer[i]).header.block_num
                == i by {
                if i < blocks.len() {
                    assert(longer[i] == blocks[i]);
                }
            }
        }
        accounts
    }

    /// Keeps the accounts at a block for later requests.
    fn keep_accounts(
        &mut self,
        block_num: BlockNumber,
        accounts: OrdMap<AccountId, MockAccountState>,
    )
        requires
            old(self).wf(),
        ensures
            final(self).wf(),
            final(self).historical_chains@ == old(self).historical_chains@.insert(
                block_num,
                accounts,
            ),
            *final(self) == (MockRpcApi {
                historical_chains: final(self).historical_chains,
                ..*old(self)
            }),
    {
        self.historical_chains.insert(block_num, accounts);
    }

    /// Appends the next block. The accounts before it stay available to requests for them at the
    /// block before.
    pub fn prove_block(&mut self, proven: ProvenBlock)
        requires
            old(self).wf(),
            old(self).chain.blocks@.len() < max_leaves(),
            proven.follows(old(self).chain.tip()),
        ensures
            final(self).wf(),
            final(self).chain.blocks@ == old(self).chain.blocks@.push(proven.block),
            final(self).chain.accounts == proven.accounts,
            final(self).chain.notes@ == old(self).chain.notes@.union_prefer_right(proven.notes@),
            final(self).chain.nullifiers@ == old(self).chain.nullifiers@ + proven.nullifiers@,
            final(self).chain.protocol_config == old(self).chain.protocol_config,
            final(self).historical_chains@ == old(self).historical_chains@.insert(
                old(self).chain.tip() as BlockNumber,
                old(self).chain.accounts,
            ),
            updates_view(final(self).account_commitment_updates@)
                == if proven.block.updated_accounts@.len() == 0 {
                updates_view(old(self).account_commitment_updates@)
            } else {
                updates_view(old(self).account_commitment_updates@).insert(
                    proven.block.header.block_num,
                    commitments_of(proven.block.updated_accounts@),
                )
            },
            *final(self) == (MockRpcApi {
                chain: final(self).chain,
                historical_chains: final(self).historical_chains,
                account_commitment_updates: final(self).account_commitment_updates,
                ..*old(self)
            }),
    {
        let ghost before = self.account_commitment_updates@;
        let tip = self.chain.chain_tip();
        let block_num = proven.block.header.block_num;
        if proven.block.updated_accounts.len() > 0 {
            let updates = commitments(&proven.block.updated_accounts);
            self.account_commitment_updates.insert(block_num, updates);
            assert(updates_view(self.account_commitment_updates@) =~= updates_view(before).insert(
                block_num,
                commitments_of(proven.block.updated_accounts@),
            ));
        }
        let accounts = self.append_block(proven);
        self.keep_accounts(tip, accounts);
    }

    /// Appends blocks. Of the accounts before them, only those at the block before the first one stay
    /// available.
    pub fn advance_blocks(&mut self, proven: Vec<ProvenBlock>)
        requires
            old(self).wf(),
            0 < proven@.len(),
            old(self).chain.blocks@.len() + proven@.len() <= max_leaves(),
            forall|i: int|
                0 <= i < proven@.len() ==> (#[trigger] proven@[i]).follows(old(self).chain.tip() + i),
        ensures
            final(self).wf(),
            final(self).chain.blocks@ == old(self).chain.blocks@ + proven@.map_values(
                |one: ProvenBlock| one.block,
            ),
            final(self).chain.accounts == proven@.last().accounts,
            final(self).chain.notes@ == notes_after(old(self).chain.notes@, proven@),
            final(self).chain.nullifiers@ == nullifiers_after(old(self).chain.nullifiers@, proven@),
            final(self).chain.protocol_config == old(self).chain.protocol_config,
            final(self).historical_chains@ == old(self).historical_chains@.insert(
                old(self).chain.tip() as BlockNumber,
                old(self).chain.accounts,
            ),
            *final(self) == (MockRpcApi {
                chain: final(self).chain,
                historical_chains: final(self).historical_chains,
                ..*old(self)
            }),
    {
        let tip = self.chain.chain_tip();
        let ghost start = *self;
        let ghost all = proven@;
        let ghost blocks = all.map_values(|one: ProvenBlock| one.block);
        let ghost mut n: int = 0;
        let mut first: Option<OrdMap<AccountId, MockAccountState>> = None;
        assert(start.chain.blocks@ + blocks.take(0) =~= start.chain.blocks@);
        for one in iter: proven
            invariant
                iter.seq() == all,
                n == iter.index(),
                blocks == all.map_values(|one: ProvenBlock| one.block),
                start.wf(),
                start.chain.blocks@.len() + all.len() <= max_leaves(),
                forall|i: int|
                    0 <= i < all.len() ==> (#[trigger] all[i]).follows(start.chain.tip() + i),
                self.wf(),
                self.chain.blocks@ == start.chain.blocks@ + blocks.take(n),
                self.chain.accounts == if n == 0 {
                    start.chain.accounts
                } else {
                    all[n - 1].accounts
                },
                self.chain.notes@ == notes_after(start.chain.notes@, all.take(n)),
                self.chain.nullifiers@ == nullifiers_after(start.chain.nullifiers@, all.take(n)),
                self.chain.protocol_config == start.chain.protocol_config,
                *self == (MockRpcApi { chain: self.chain, ..start }),
                first == if n == 0 {
                    None
                } else {
                    Some(start.chain.accounts)
                },
        {
            proof {
                let longer = all.take(n + 1);
                assert(longer.drop_last() =~= all.take(n));
                assert(longer.last() == one);
                assert(all[n] == one);
                assert(blocks.take(n + 1) =~= blocks.take(n).push(one.block));
            }
            let accounts = self.append_block(one);
            assert(self.chain.blocks@ =~= start.chain.blocks@ + blocks.take(n + 1));
            if first.is_none() {
                first = Some(accounts);
            }
            proof {
                n = n + 1;
            }
        }
        assert(all.take(n) =~= all);
        assert(blocks.take(n) =~= blocks);
        if let Some(accounts) = first {
            self.keep_accounts(tip, accounts);
        }
    }
}

// ACCOUNTS
// ================================================================================================
/// The accounts at the block of a request; `None` if they were not kept.
pub open spec fn accounts_at(api: MockRpcApi, at: AccountStateAt) -> Option<
    OrdMap<AccountId, MockAccountState>,
> {
    match at {
        AccountStateAt::ChainTip => Some(api.chain.accounts),
        AccountStateAt::Block(number) => if number == api.chain.tip() {
            Some(api.chain.accounts)
        } else if api.historical_chains@.contains_key(number) {
            Some(api.historical_chains@[number])
        } else {
            None
        },
    }
}

/// What is said of a block whose accounts were not kept.
pub open spec fn no_snapshot_text(block_num: BlockNumber) -> Seq<char> {
    "no mock chain snapshot at block "@ + decimal_of(block_num as nat)
}

/// The answer is the account, with the maps that are requested.
pub open spec fn is_answer_of(
    found: AccountProof,
    state: MockAccountState,
    storage: StorageMapFetch,
    oversize_threshold: usize,
) -> bool {
    &&& found.is_consistent()
    &&& found.account_witness.id == state.witness().id
    &&& found.account_witness.state_commitment == state.witness().state_commitment
    &&& found.account_witness.path@ == state.witness().path@
    &&& match state.account() {
        Some(account) => found.state_headers matches Some(details) && is_details_of(
            details,
            account,
            storage,
            oversize_threshold,
        ),
        None => found.state_headers is None,
    }
}

impl MockRpcApi {
    /// The block that a request is about.
    pub open spec fn block_of(self, at: AccountStateAt) -> int {
        match at {
            AccountStateAt::Block(number) => number as int,
            AccountStateAt::ChainTip => self.chain.tip(),
        }
    }

    /// Returns the account with a proof of it, and the block it is from. What the client holds makes no
    /// difference: all of the account is sent, with a flag for data that are too large. A private
    /// account that is not on the chain is answered by a proof of that; a public one has to be there.
    pub fn get_account(&self, account_id: AccountId, request: &GetAccountRequest) -> (answer: Result<
        (BlockNumber, AccountProof),
        RpcError,
    >)
        requires
            self.wf(),
            accounts_at(*self, request.at) matches Some(accounts) ==> if accounts@.contains_key(
                account_id,
            ) {
                accounts@[account_id].account() matches Some(account) ==> can_serve(
                    account,
                    request.storage,
                )
            } else {
                !is_public_of(account_id)
            },
        ensures
            match accounts_at(*self, request.at) {
                None => {
                    &&& answer matches Err(RpcError::InvalidResponse(text))
                    &&& text@ == no_snapshot_text(request.at->Block_0)
                },
                Some(accounts) => if accounts@.contains_key(account_id) {
                    answer matches Ok((block_number, found)) && block_number == self.block_of(
                        request.at,
                    ) && is_answer_of(
                        found,
                        accounts@[account_id],
                        request.storage,
                        self.oversize_threshold,
                    )
                } else {
                    match account_opened_of(tree_entries(accounts), account_id) {
                        Some((id, state_commitment, path)) => {
                            &&& answer matches Ok((block_number, found))
                            &&& block_number == self.block_of(request.at)
                            &&& found.account_witness.id == id
                            &&& found.account_witness.state_commitment == state_commitment
                            &&& found.account_witness.path@ == path
                            &&& path.len() == ACCOUNT_TREE_DEPTH
                            &&& is_state_among(state_commitment, tree_entries(accounts))
                            &&& found.state_headers is None
                        },
                        None => {
                            &&& answer matches Err(RpcError::InvalidResponse(text))
                            &&& text@ == "the accounts form no tree"@
                            &&& accounts.listing().len() == 0 ==> !is_account_id_of(account_id)
                        },
                    }
                },
            },
    {
        let tip = self.chain.chain_tip();
        let block_number = match request.at {
            AccountStateAt::Block(number) => number,
            AccountStateAt::ChainTip => tip,
        };
        let accounts = if block_number == tip {
            &self.chain.accounts
        } else {
            match self.historical_chains.get(&block_number) {
                Some(accounts) => accounts,
                None => {
                    let text = "no mock chain snapshot at block ".to_owned();
                    let number = decimal(block_number as u64);
                    return Err(RpcError::InvalidResponse(text.concat(number.as_str())));
                },
            }
        };
        match accounts.get(&account_id) {
            Some(state) => Ok(
                (block_number, state.answer(&request.storage, self.oversize_threshold)),
            ),
            None => match absent_account(accounts, account_id) {
                Some(found) => Ok((block_number, found)),
                None => Err(RpcError::InvalidResponse("the accounts form no tree".to_owned())),
            },
        }
    }

    /// The last block of the page of changes that starts at a block.
    pub open spec fn page_end(self, block_from: BlockNumber, block_to: BlockNumber) -> int {
        vstd::math::min(
            block_from + PAGINATION_BLOCK_LIMIT,
            vstd::math::min(block_to as int, self.chain.tip()),
        )
    }

    /// Returns the last block of the page of changes that starts at a block.
    fn last_of_page(&self, block_from: BlockNumber, block_to: BlockNumber) -> (page_end: BlockNumber)
        requires
            self.wf(),
            block_from + PAGINATION_BLOCK_LIMIT <= u32::MAX,
        ensures
            page_end == self.page_end(block_from, block_to),
    {
        let tip = self.chain.chain_tip();
        let target: BlockNumber = if block_to < tip {
            block_to
        } else {
            tip
        };
        let limit: BlockNumber = block_from + PAGINATION_BLOCK_LIMIT;
        if limit < target {
            limit
        } else {
            target
        }
    }

    /// Returns the chain tip, the last block of the page, and the assets of an account that the
    /// blocks of the page changed.
    pub fn get_sync_account_vault_request(
        &self,
        block_from: BlockNumber,
        block_to: BlockNumber,
        account_id: AccountId,
    ) -> (page: (BlockNumber, BlockNumber, AccountVaultPatch))
        requires
            self.wf(),
            block_from + PAGINATION_BLOCK_LIMIT <= u32::MAX,
        ensures
            page.0 == self.chain.tip(),
            page.1 == self.page_end(block_from, block_to),
            page.2.assets@ == chain_changes(
                self.chain.blocks@,
                account_id,
                block_from as int,
                page.1 as int,
            ).assets,
    {
        let page_end = self.last_of_page(block_from, block_to);
        let mut vault_patch = AccountVaultPatch { assets: OrdMap::new() };
        let mut i: usize = 0;
        while i < self.chain.blocks.len()
            invariant
                i <= self.chain.blocks.len(),
                self.wf(),
                vault_patch.assets@ == chain_changes(
                    self.chain.blocks@.take(i as int),
                    account_id,
                    block_from as int,
                    page_end as int,
                ).assets,
            decreases self.chain.blocks.len() - i,
        {
            let block = &self.chain.blocks[i];
            proof {
                let longer = self.chain.blocks@.take(i + 1);
                assert(longer.drop_last() =~= self.chain.blocks@.take(i as int));
                assert(longer.last() == self.chain.blocks@[i as int]);
            }
            let block_number = block.header.block_num;
            if block_from <= block_number && block_number <= page_end {
                block.add_vault_changes(account_id, &mut vault_patch);
            }
            i += 1;
        }
        assert(self.chain.blocks@.take(i as int) =~= self.chain.blocks@);
        (self.chain.chain_tip(), page_end, vault_patch)
    }

    /// Returns the chain tip, the last block of the page, and the map entries of an account that the
    /// blocks of the page changed.
    pub fn get_sync_storage_maps_request(
        &self,
        block_from: BlockNumber,
        block_to: BlockNumber,
        account_id: AccountId,
    ) -> (page: (BlockNumber, BlockNumber, OrdMap<SlotId, OrdMap<Word, Word>>))
        requires
            self.wf(),
            block_from + PAGINATION_BLOCK_LIMIT <= u32::MAX,
        ensures
            page.0 == self.chain.tip(),
            page.1 == self.page_end(block_from, block_to),
            maps_view(page.2@) == chain_changes(
                self.chain.blocks@,
                account_id,
                block_from as int,
                page.1 as int,
            ).maps,
    {
        let page_end = self.last_of_page(block_from, block_to);
        let mut map_entries: OrdMap<SlotId, OrdMap<Word, Word>> = OrdMap::new();
        let mut i: usize = 0;
        assert(maps_view(map_entries@) =~= Map::empty());
        while i < self.chain.blocks.len()
            invariant
                i <= self.chain.blocks.len(),
                self.wf(),
                maps_view(map_entries@) == chain_changes(
                    self.chain.blocks@.take(i as int),
                    account_id,
                    block_from as int,
                    page_end as int,
                ).maps,
            decreases self.chain.blocks.len() - i,
        {
            let block = &self.chain.blocks[i];
            proof {
                let longer = self.chain.blocks@.take(i + 1);
                assert(longer.drop_last() =~= self.chain.blocks@.take(i as int));
                assert(longer.last() == self.chain.blocks@[i as int]);
            }
            let block_number = block.header.block_num;
            if block_from <= block_number && block_number <= page_end {
                block.add_map_changes(account_id, &mut map_entries);
            }
            i += 1;
        }
        assert(self.chain.blocks@.take(i as int) =~= self.chain.blocks@);
        (self.chain.chain_tip(), page_end, map_entries)
    }

    /// Returns the assets of an account that the blocks of a range changed, which are asked for page
    /// by page.
    pub fn sync_account_vault(
        &self,
        block_from: BlockNumber,
        block_to: BlockNumber,
        account_id: AccountId,
    ) -> (info: AccountVaultInfo)
        requires
            self.wf(),
            block_from + PAGINATION_BLOCK_LIMIT <= u32::MAX,
            self.chain.tip() + PAGINATION_BLOCK_LIMIT <= u32::MAX,
        ensures
            info.chain_tip == self.chain.tip(),
            info.block_number == vstd::math::min(block_to as int, self.chain.tip()),
            info.vault_patch.assets@ == chain_changes(
                self.chain.blocks@,
                account_id,
                block_from as int,
                info.block_number as int,
            ).assets,
    {
        let tip = self.chain.chain_tip();
        let target: BlockNumber = if block_to < tip {
            block_to
        } else {
            tip
        };
        let ghost blocks = self.chain.blocks@;
        let mut vault_patch = AccountVaultPatch { assets: OrdMap::new() };
        let mut current: BlockNumber = block_from;
        proof {
            lemma_empty_range(blocks, account_id, block_from as int, block_from - 1);
        }
        loop
            invariant
                self.wf(),
                blocks == self.chain.blocks@,
                tip == self.chain.tip(),
                target == vstd::math::min(block_to as int, self.chain.tip()),
                block_from + PAGINATION_BLOCK_LIMIT <= u32::MAX,
                self.chain.tip() + PAGINATION_BLOCK_LIMIT <= u32::MAX,
                current == block_from || block_from < current <= target,
                vault_patch.assets@ == chain_changes(
                    blocks,
                    account_id,
                    block_from as int,
                    current - 1,
                ).assets,
            decreases target + 1 - current,
        {
            let (chain_tip, page_end, page) = self.get_sync_account_vault_request(
                current,
                block_to,
                account_id,
            );
            proof {
                if current <= target {
                    law_pages_join(
                        blocks,
                        account_id,
                        block_from as int,
                        current - 1,
                        page_end as int,
                    );
                } else {
                    lemma_empty_range(blocks, account_id, block_from as int, current - 1);
                    lemma_merged_with_none(
                        chain_changes(blocks, account_id, block_from as int, page_end as int),
                    );
                }
            }
            merge_vault_page(&mut vault_patch, page);
            if page_end >= target {
                return AccountVaultInfo { chain_tip, block_number: page_end, vault_patch };
            }
            current = page_end + 1;
        }
    }

    /// Returns the map entries of an account that the blocks of a range changed, which are asked for
    /// page by page.
    pub fn sync_storage_maps(
        &self,
        block_from: BlockNumber,
        block_to: BlockNumber,
        account_id: AccountId,
    ) -> (info: StorageMapInfo)
        requires
            self.wf(),
            block_from + PAGINATION_BLOCK_LIMIT <= u32::MAX,
            self.chain.tip() + PAGINATION_BLOCK_LIMIT <= u32::MAX,
        ensures
            info.chain_tip == self.chain.tip(),
            info.block_number == vstd::math::min(block_to as int, self.chain.tip()),
            maps_view(info.map_entries@) == chain_changes(
                self.chain.blocks@,
                account_id,
                block_from as int,
                info.block_number as int,
            ).maps,
    {
        let tip = self.chain.chain_tip();
        let target: BlockNumber = if block_to < tip {
            block_to
        } else {
            tip
        };
        let ghost blocks = self.chain.blocks@;
        let mut map_entries: OrdMap<SlotId, OrdMap<Word, Word>> = OrdMap::new();
        let mut current: BlockNumber = block_from;
        proof {
            lemma_empty_range(blocks, account_id, block_from as int, block_from - 1);
            assert(maps_view(map_entries@) =~= Map::empty());
        }
        loop
            invariant
                self.wf(),
                blocks == self.chain.blocks@,
                tip == self.chain.tip(),
                target == vstd::math::min(block_to as int, self.chain.tip()),
                block_from + PAGINATION_BLOCK_LIMIT <= u32::MAX,
                self.chain.tip() + PAGINATION_BLOCK_LIMIT <= u32::MAX,
                current == block_from || block_from < current <= target,
                maps_view(map_entries@) == chain_changes(
                    blocks,
                    account_id,
                    block_from as int,
                    current - 1,
                ).maps,
            decreases target + 1 - current,
        {
            let (chain_tip, page_end, page) = self.get_sync_storage_maps_request(
                current,
                block_to,
                account_id,
            );
            let ghost before = map_entries@;
            let ghost sent = page@;
            merge_storage_page(&mut map_entries, page);
            proof {
                lemma_page_added(before, sent, map_entries@);
                if current <= target {
                    law_pages_join(
                        blocks,
                        account_id,
                        block_from as int,
                        current - 1,
                        page_end as int,
                    );
                } else {
                    lemma_empty_range(blocks, account_id, block_from as int, current - 1);
                    lemma_merged_with_none(
                        chain_changes(blocks, account_id, block_from as int, page_end as int),
                    );
                }
            }
            if page_end >= target {
                return StorageMapInfo { chain_tip, block_number: page_end, map_entries };
            }
            current = page_end + 1;
        }
    }
}

} // verus!
