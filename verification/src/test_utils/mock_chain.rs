//! The chain of a mock node: its blocks, and the changes of accounts in them.
use miden_protocol::crypto::merkle::mmr::{Forest, Mmr};
use miden_protocol::Felt;
use vstd::prelude::*;

use crate::collections::{entries_map, keys_ascending, lemma_entry_of, lemma_take_next, OrdMap};
use crate::mmr::{max_leaves, MmrDelta};
use crate::rpc::domain::account::SlotId;
use crate::rpc::domain::note::{NoteInclusionProof, NoteMetadata, NoteScript, NullifierUpdate};
use crate::rpc::domain::sync::ProtocolConfig;
use crate::rpc::domain::transaction::TransactionHeader;
use crate::rpc::grpc_client::{is_page_added, merge_storage_page, slot_entries};
use crate::sync::account_updates::AccountVaultPatch;
use crate::test_utils::mock_account::MockAccountState;
use crate::types::{AccountId, BlockHeader, BlockNumber, NoteId, Nullifier, Word};

verus! {

/// The nodes that turn the range over the first `from` leaves into the range over the first `to`.
pub uninterp spec fn mmr_delta_of(leaves: Seq<Word>, from: nat, to: nat) -> Seq<Word>;

/// The path from the leaf at a position to its peak in the range over the leaves.
pub uninterp spec fn mmr_path_of(leaves: Seq<Word>, position: nat) -> Seq<Word>;

/// `Mmr::try_from_iter` and `Mmr::get_delta`: what turns the range over the first `from` leaves into
/// the range over the first `to`. The nodes are only named.
#[verifier::external_body]
pub(crate) fn mmr_delta(leaves: &Vec<Word>, from: u32, to: u32) -> (delta: Option<MmrDelta>)
    requires
        leaves@.len() <= max_leaves(),
    ensures
        delta is Some <==> from <= to <= leaves@.len(),
        delta matches Some(delta) ==> delta.forest == to && delta.data@ == mmr_delta_of(
            leaves@,
            from as nat,
            to as nat,
        ),
{
    let leaves = leaves
        .iter()
        .map(|leaf| miden_protocol::Word::new(leaf.elements().map(Felt::new_unchecked)));
    let (from, to) = (Forest::new(from as usize).ok()?, Forest::new(to as usize).ok()?);
    let delta = Mmr::try_from_iter(leaves).ok()?.get_delta(from, to).ok()?;
    let data = delta
        .data
        .into_iter()
        .map(|node| Word::from_elements(node.into_elements().map(|e| e.as_canonical_u64())))
        .collect();
    Some(MmrDelta { forest: delta.forest.num_leaves() as u32, data })
}

/// `Mmr::try_from_iter` and `Mmr::open`: the path from the leaf at a position to its peak. The path is
/// only named.
#[verifier::external_body]
pub(crate) fn mmr_path(leaves: &Vec<Word>, position: u32) -> (path: Option<Vec<Word>>)
    requires
        leaves@.len() <= max_leaves(),
    ensures
        path is Some <==> position < leaves@.len(),
        path matches Some(path) ==> path@ == mmr_path_of(leaves@, position as nat),
{
    let leaves = leaves
        .iter()
        .map(|leaf| miden_protocol::Word::new(leaf.elements().map(Felt::new_unchecked)));
    let opening = Mmr::try_from_iter(leaves).ok()?.open(position as usize).ok()?;
    let path = opening.merkle_path().nodes().iter();
    Some(
        path
            .map(|node| Word::from_elements(node.into_elements().map(|e| e.as_canonical_u64())))
            .collect(),
    )
}

// BLOCKS
// ================================================================================================
/// What a block changes in a public account.
#[derive(Debug)]
pub struct MockPatch {
    pub vault: AccountVaultPatch,
    /// The changed entries of storage maps.
    pub maps: OrdMap<SlotId, OrdMap<Word, Word>>,
}

/// An update of an account in a block.
#[derive(Debug)]
pub struct MockAccountUpdate {
    pub account_id: AccountId,
    pub final_state_commitment: Word,
    /// The changes of a public account.
    pub public_patch: Option<MockPatch>,
}

/// A proven block.
#[derive(Debug)]
pub struct MockBlock {
    pub header: BlockHeader,
    /// The header and the content with the signatures, in serialized form.
    pub serialized: Vec<u8>,
    pub signatures: Vec<Vec<u8>>,
    pub block_proof: Vec<u8>,
    pub transactions: Vec<TransactionHeader>,
    pub updated_accounts: Vec<MockAccountUpdate>,
}

/// A public note: what makes its nullifier and its script.
#[derive(Debug)]
pub struct MockPublicNote {
    pub nullifier: Nullifier,
    pub script: NoteScript,
}

/// A note that was created in a block.
#[derive(Debug)]
pub struct MockChainNote {
    pub metadata: NoteMetadata,
    pub inclusion_proof: NoteInclusionProof,
    /// The attachments, in serialized form, and the number of words of each.
    pub attachments: Vec<u8>,
    pub attachment_words: Vec<u32>,
    /// The content of a public note.
    pub public: Option<MockPublicNote>,
}

/// A chain.
#[derive(Debug)]
pub struct MockChain {
    /// The blocks, by number.
    pub blocks: Vec<MockBlock>,
    /// The accounts at the latest block.
    pub accounts: OrdMap<AccountId, MockAccountState>,
    pub notes: OrdMap<NoteId, MockChainNote>,
    pub nullifiers: Vec<NullifierUpdate>,
    pub protocol_config: ProtocolConfig,
}

/// The blocks are numbered from the first one.
pub open spec fn blocks_in_order(blocks: Seq<MockBlock>) -> bool {
    forall|i: int|
        0 <= i < blocks.len() ==> (#[trigger] blocks[i]).header.block_num == i
}

impl MockChain {
    /// The chain has a first block, and its blocks are numbered.
    pub open spec fn wf(self) -> bool {
        &&& 0 < self.blocks@.len() <= max_leaves()
        &&& blocks_in_order(self.blocks@)
    }

    /// The number of the latest block.
    pub open spec fn tip(self) -> int {
        self.blocks@.len() - 1
    }

    /// The commitments of the blocks.
    pub open spec fn leaves(self) -> Seq<Word> {
        self.blocks@.map_values(|block: MockBlock| block.header.commitment)
    }

    /// Returns the number of the latest block.
    pub fn chain_tip(&self) -> (tip: BlockNumber)
        requires
            self.wf(),
        ensures
            tip == self.tip(),
    {
        self.blocks[self.blocks.len() - 1].header.block_num
    }

    /// Returns the commitments of the blocks.
    pub fn block_commitments(&self) -> (leaves: Vec<Word>)
        ensures
            leaves@ == self.leaves(),
    {
        let mut leaves: Vec<Word> = Vec::new();
        let mut i: usize = 0;
        while i < self.blocks.len()
            invariant
                i <= self.blocks.len(),
                leaves@ == self.leaves().take(i as int),
            decreases self.blocks.len() - i,
        {
            leaves.push(self.blocks[i].header.commitment);
            assert(leaves@ =~= self.leaves().take(i + 1));
            i += 1;
        }
        assert(self.leaves().take(i as int) =~= self.leaves());
        leaves
    }
}

// CHANGES OF AN ACCOUNT
// ================================================================================================
/// The changes of an account: the assets, and the entries of the storage maps.
#[verifier::ext_equal]
pub struct AccountChanges {
    pub assets: Map<Word, Word>,
    pub maps: Map<SlotId, Map<Word, Word>>,
}

/// The entries of each map, by slot.
pub open spec fn maps_view(maps: Map<SlotId, OrdMap<Word, Word>>) -> Map<SlotId, Map<Word, Word>> {
    Map::new(|slot: SlotId| maps.contains_key(slot), |slot: SlotId| maps[slot]@)
}

/// The changes of a slot; none if it is not changed.
pub open spec fn changes_at(maps: Map<SlotId, Map<Word, Word>>, slot: SlotId) -> Map<Word, Word> {
    if maps.contains_key(slot) {
        maps[slot]
    } else {
        Map::empty()
    }
}

/// Changes of maps followed by later ones, which replace them entry by entry.
pub open spec fn maps_merged(
    earlier: Map<SlotId, Map<Word, Word>>,
    later: Map<SlotId, Map<Word, Word>>,
) -> Map<SlotId, Map<Word, Word>> {
    Map::new(
        |slot: SlotId| earlier.contains_key(slot) || later.contains_key(slot),
        |slot: SlotId| changes_at(earlier, slot).union_prefer_right(changes_at(later, slot)),
    )
}

/// Changes followed by later ones, which replace them.
pub open spec fn merged(earlier: AccountChanges, later: AccountChanges) -> AccountChanges {
    AccountChanges {
        assets: earlier.assets.union_prefer_right(later.assets),
        maps: maps_merged(earlier.maps, later.maps),
    }
}

/// No changes.
pub open spec fn no_changes() -> AccountChanges {
    AccountChanges { assets: Map::empty(), maps: Map::empty() }
}

/// What an update changes in an account. The changes of a private account are not known.
pub open spec fn update_changes(update: MockAccountUpdate, account_id: AccountId) -> AccountChanges {
    match update.public_patch {
        Some(patch) if update.account_id == account_id => AccountChanges {
            assets: patch.vault.assets@,
            maps: maps_view(patch.maps@),
        },
        _ => no_changes(),
    }
}

/// What updates change in an account, one after the other.
pub open spec fn updates_changes(updates: Seq<MockAccountUpdate>, account_id: AccountId) -> AccountChanges
    decreases updates.len(),
{
    if updates.len() == 0 {
        no_changes()
    } else {
        merged(
            updates_changes(updates.drop_last(), account_id),
            update_changes(updates.last(), account_id),
        )
    }
}

/// What the blocks from one number to another change in an account, both included.
pub open spec fn chain_changes(
    blocks: Seq<MockBlock>,
    account_id: AccountId,
    from: int,
    to: int,
) -> AccountChanges
    decreases blocks.len(),
{
    if blocks.len() == 0 {
        no_changes()
    } else {
        let earlier = chain_changes(blocks.drop_last(), account_id, from, to);
        if from <= blocks.last().header.block_num <= to {
            merged(earlier, updates_changes(blocks.last().updated_accounts@, account_id))
        } else {
            earlier
        }
    }
}

/// Changing nothing makes no difference.
pub proof fn lemma_merged_with_none(changes: AccountChanges)
    ensures
        merged(changes, no_changes()) == changes,
        merged(no_changes(), changes) == changes,
{
    let right = merged(changes, no_changes());
    assert(right.assets =~= changes.assets);
    assert forall|slot: SlotId| right.maps.contains_key(slot) implies #[trigger] right.maps[slot]
        == changes.maps[slot] by {
        assert(right.maps[slot] =~= changes.maps[slot]);
    }
    assert(right.maps =~= changes.maps);
    let left = merged(no_changes(), changes);
    assert(left.assets =~= changes.assets);
    assert forall|slot: SlotId| left.maps.contains_key(slot) implies #[trigger] left.maps[slot]
        == changes.maps[slot] by {
        assert(left.maps[slot] =~= changes.maps[slot]);
    }
    assert(left.maps =~= changes.maps);
}

/// It makes no difference which changes are put together first.
pub proof fn lemma_merged_associates(a: AccountChanges, b: AccountChanges, c: AccountChanges)
    ensures
        merged(merged(a, b), c) == merged(a, merged(b, c)),
{
    let left = merged(merged(a, b), c);
    let right = merged(a, merged(b, c));
    assert(left.assets =~= right.assets);
    assert forall|slot: SlotId| left.maps.contains_key(slot) implies #[trigger] left.maps[slot]
        == right.maps[slot] by {
        assert(left.maps[slot] =~= right.maps[slot]);
    }
    assert(left.maps =~= right.maps);
}

/// Blocks before a range change nothing in it.
proof fn lemma_before_range(blocks: Seq<MockBlock>, account_id: AccountId, from: int, to: int)
    requires
        blocks_in_order(blocks),
        blocks.len() <= from,
    ensures
        chain_changes(blocks, account_id, from, to) == no_changes(),
    decreases blocks.len(),
{
    if blocks.len() > 0 {
        assert(blocks.last() == blocks[blocks.len() - 1]);
        lemma_before_range(blocks.drop_last(), account_id, from, to);
    }
}

/// Nothing changes in a range without blocks.
pub proof fn lemma_empty_range(blocks: Seq<MockBlock>, account_id: AccountId, from: int, to: int)
    requires
        to < from,
    ensures
        chain_changes(blocks, account_id, from, to) == no_changes(),
    decreases blocks.len(),
{
    if blocks.len() > 0 {
        lemma_empty_range(blocks.drop_last(), account_id, from, to);
    }
}

/// The changes of two ranges of blocks, one after the other, are those of the range they make up: no
/// change is lost by asking for a range page by page.
pub proof fn law_pages_join(
    blocks: Seq<MockBlock>,
    account_id: AccountId,
    from: int,
    middle: int,
    to: int,
)
    requires
        blocks_in_order(blocks),
        from <= middle + 1,
        middle <= to,
    ensures
        merged(
            chain_changes(blocks, account_id, from, middle),
            chain_changes(blocks, account_id, middle + 1, to),
        ) == chain_changes(blocks, account_id, from, to),
    decreases blocks.len(),
{
    if blocks.len() == 0 {
        lemma_merged_with_none(no_changes());
    } else {
        let rest = blocks.drop_last();
        let last = blocks.last();
        let changes = updates_changes(last.updated_accounts@, account_id);
        assert(last == blocks[blocks.len() - 1]);
        law_pages_join(rest, account_id, from, middle, to);
        if last.header.block_num <= middle {
            lemma_before_range(blocks, account_id, middle + 1, to);
            lemma_before_range(rest, account_id, middle + 1, to);
            lemma_merged_with_none(chain_changes(blocks, account_id, from, middle));
            lemma_merged_with_none(chain_changes(rest, account_id, from, middle));
        } else if last.header.block_num <= to {
            lemma_merged_associates(
                chain_changes(rest, account_id, from, middle),
                chain_changes(rest, account_id, middle + 1, to),
                changes,
            );
        }
    }
}

/// A page that was added changes the maps as it says.
pub proof fn lemma_page_added(
    before: Map<SlotId, OrdMap<Word, Word>>,
    page: Map<SlotId, OrdMap<Word, Word>>,
    after: Map<SlotId, OrdMap<Word, Word>>,
)
    requires
        is_page_added(before, page, after),
    ensures
        maps_view(after) == maps_merged(maps_view(before), maps_view(page)),
{
    let expected = maps_merged(maps_view(before), maps_view(page));
    assert forall|slot: SlotId| maps_view(after).contains_key(slot) <==> expected.contains_key(
        slot,
    ) by {
        assert(after.dom().contains(slot) <==> before.dom().contains(slot) || page.dom().contains(
            slot,
        ));
    }
    assert forall|slot: SlotId| maps_view(after).contains_key(slot) implies #[trigger] maps_view(
        after,
    )[slot] == expected[slot] by {
        assert(after.contains_key(slot));
        assert(slot_entries(before, slot) == changes_at(maps_view(before), slot));
        assert(slot_entries(page, slot) == changes_at(maps_view(page), slot));
    }
    assert(maps_view(after) =~= expected);
}

/// Returns a copy of the changes of maps.
fn copy_maps(maps: &OrdMap<SlotId, OrdMap<Word, Word>>) -> (copied: OrdMap<
    SlotId,
    OrdMap<Word, Word>,
>)
    ensures
        maps_view(copied@) == maps_view(maps@),
{
    let ghost all = maps.listing();
    let mut copied: OrdMap<SlotId, OrdMap<Word, Word>> = OrdMap::new();
    let mut i: usize = 0;
    proof {
        use_type_invariant(maps);
        assert(entries_map(all.take(0)) =~= Map::empty());
    }
    while i < maps.len()
        invariant
            i <= maps.listing().len(),
            all == maps.listing(),
            keys_ascending(all),
            maps@ == entries_map(all),
            maps_view(copied@) == maps_view(entries_map(all.take(i as int))),
        decreases maps.listing().len() - i,
    {
        let slot = maps.entries()[i].0;
        let entries = maps.entries()[i].1.copy();
        let ghost before = copied@;
        proof {
            lemma_take_next(all, i as int);
            lemma_entry_of(all, i as int);
            assert(maps@.contains_key(all[i as int].0));
        }
        copied.insert(slot, entries);
        proof {
            let longer = entries_map(all.take(i + 1));
            assert forall|s: SlotId| maps_view(copied@).contains_key(s) implies #[trigger] maps_view(
                copied@,
            )[s] == maps_view(longer)[s] by {
                if s != slot {
                    assert(maps_view(before).contains_key(s));
                    assert(maps_view(before)[s] == maps_view(entries_map(all.take(i as int)))[s]);
                }
            }
            assert forall|s: SlotId| maps_view(copied@).contains_key(s) == maps_view(
                longer,
            ).contains_key(s) by {
                assert(maps_view(before).contains_key(s) == maps_view(
                    entries_map(all.take(i as int)),
                ).contains_key(s));
            }
            assert(maps_view(copied@) =~= maps_view(longer));
        }
        i += 1;
    }
    assert(all.take(i as int) =~= all);
    copied
}

impl MockBlock {
    /// Adds the changed assets of an account to earlier ones.
    pub fn add_vault_changes(&self, account_id: AccountId, vault_patch: &mut AccountVaultPatch)
        ensures
            final(vault_patch).assets@ == old(vault_patch).assets@.union_prefer_right(
                updates_changes(self.updated_accounts@, account_id).assets,
            ),
    {
        let ghost before = vault_patch.assets@;
        let mut i: usize = 0;
        assert(before =~= before.union_prefer_right(Map::empty()));
        while i < self.updated_accounts.len()
            invariant
                i <= self.updated_accounts.len(),
                vault_patch.assets@ == before.union_prefer_right(
                    updates_changes(self.updated_accounts@.take(i as int), account_id).assets,
                ),
            decreases self.updated_accounts.len() - i,
        {
            let ghost now = vault_patch.assets@;
            let ghost longer = self.updated_accounts@.take(i + 1);
            let update = &self.updated_accounts[i];
            proof {
                assert(longer.drop_last() =~= self.updated_accounts@.take(i as int));
                assert(longer.last() == self.updated_accounts@[i as int]);
            }
            if update.account_id == account_id {
                if let Some(patch) = &update.public_patch {
                    vault_patch.assets.insert_all(patch.vault.assets.copy());
                }
            }
            assert(vault_patch.assets@ =~= before.union_prefer_right(
                updates_changes(longer, account_id).assets,
            ));
            i += 1;
        }
        assert(self.updated_accounts@.take(i as int) =~= self.updated_accounts@);
    }

    /// Adds the changed map entries of an account to earlier ones.
    pub fn add_map_changes(
        &self,
        account_id: AccountId,
        maps: &mut OrdMap<SlotId, OrdMap<Word, Word>>,
    )
        ensures
            maps_view(final(maps)@) == maps_merged(
                maps_view(old(maps)@),
                updates_changes(self.updated_accounts@, account_id).maps,
            ),
    {
        let ghost before = maps_view(maps@);
        let ghost start = AccountChanges { assets: Map::empty(), maps: before };
        let mut i: usize = 0;
        proof {
            lemma_merged_with_none(start);
        }
        while i < self.updated_accounts.len()
            invariant
                i <= self.updated_accounts.len(),
                start == (AccountChanges { assets: Map::empty(), maps: before }),
                maps_view(maps@) == maps_merged(
                    before,
                    updates_changes(self.updated_accounts@.take(i as int), account_id).maps,
                ),
            decreases self.updated_accounts.len() - i,
        {
            let ghost now = maps@;
            let ghost longer = self.updated_accounts@.take(i + 1);
            let update = &self.updated_accounts[i];
            proof {
                assert(longer.drop_last() =~= self.updated_accounts@.take(i as int));
                assert(longer.last() == self.updated_accounts@[i as int]);
                lemma_merged_associates(
                    start,
                    updates_changes(longer.drop_last(), account_id),
                    update_changes(longer.last(), account_id),
                );
                lemma_merged_with_none(merged(start, updates_changes(longer.drop_last(), account_id)));
            }
            if update.account_id == account_id {
                if let Some(patch) = &update.public_patch {
                    let page = copy_maps(&patch.maps);
                    let ghost sent = page@;
                    merge_storage_page(maps, page);
                    proof {
                        lemma_page_added(now, sent, maps@);
                    }
                }
            }
            i += 1;
        }
        assert(self.updated_accounts@.take(i as int) =~= self.updated_accounts@);
    }
}

} // verus!
