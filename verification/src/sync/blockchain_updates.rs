//! What a sync adds to the part of the chain the client keeps.
use vstd::prelude::*;

use crate::collections::OrdMap;
use crate::mmr::{InOrderIndex, MmrPeaks};
use crate::types::{BlockHeader, BlockNumber, Word, GENESIS};

verus! {

/// A header to be stored, and whether the client keeps tracking its block.
#[derive(Clone, Copy, Debug, PartialEq, Eq, Structural)]
pub struct BlockUpdate {
    pub header: BlockHeader,
    pub is_relevant: bool,
}

/// The headers after one more was added: the first header of a block stays, and a block that was
/// relevant once stays relevant.
pub open spec fn with_header(
    headers: Map<BlockNumber, BlockUpdate>,
    header: BlockHeader,
    is_relevant: bool,
) -> Map<BlockNumber, BlockUpdate> {
    let block_num = header.block_num;
    if headers.contains_key(block_num) {
        headers.insert(
            block_num,
            BlockUpdate {
                header: headers[block_num].header,
                is_relevant: headers[block_num].is_relevant || is_relevant,
            },
        )
    } else {
        headers.insert(block_num, BlockUpdate { header, is_relevant })
    }
}

/// The update is stored at this sync height: its block is relevant, or the first, or the last.
pub open spec fn is_stored(update: BlockUpdate, sync_height: BlockNumber) -> bool {
    update.is_relevant || update.header.block_num == GENESIS || update.header.block_num
        == sync_height
}

/// The updates that are stored at this sync height, in the order of their blocks.
pub open spec fn stored_of(
    entries: Seq<(BlockNumber, BlockUpdate)>,
    sync_height: BlockNumber,
) -> Seq<BlockUpdate>
    decreases entries.len(),
{
    if entries.len() == 0 {
        Seq::empty()
    } else {
        let rest = stored_of(entries.drop_last(), sync_height);
        if is_stored(entries.last().1, sync_height) {
            rest.push(entries.last().1)
        } else {
            rest
        }
    }
}

/// Headers, authentication nodes and peaks to be stored. Entries are only ever added.
#[derive(Debug)]
pub struct PartialBlockchainUpdates {
    /// Headers by block number.
    pub block_headers: OrdMap<BlockNumber, BlockUpdate>,
    /// Nodes that authenticate headers. The paths of blocks share nodes, so this is one set for all
    /// headers.
    pub new_authentication_nodes: Vec<(InOrderIndex, Word)>,
    /// The peaks at the new sync height.
    pub new_peaks: MmrPeaks,
}

impl PartialBlockchainUpdates {
    /// Returns updates that add nothing.
    pub fn new() -> (updates: Self)
        ensures
            updates.block_headers@ == Map::<BlockNumber, BlockUpdate>::empty(),
            updates.new_authentication_nodes@ == Seq::<(InOrderIndex, Word)>::empty(),
            updates.new_peaks.forest == 0,
            updates.new_peaks.peaks@ == Seq::<Word>::empty(),
    {
        PartialBlockchainUpdates {
            block_headers: OrdMap::new(),
            new_authentication_nodes: Vec::new(),
            new_peaks: MmrPeaks::empty(),
        }
    }

    /// Adds a header. If its block has one already, that one stays, and the block becomes relevant
    /// if either says so.
    pub fn insert(&mut self, block_header: BlockHeader, is_relevant: bool)
        ensures
            final(self).block_headers@ == with_header(
                old(self).block_headers@,
                block_header,
                is_relevant,
            ),
            final(self).new_authentication_nodes == old(self).new_authentication_nodes,
            final(self).new_peaks == old(self).new_peaks,
    {
        let update = match self.block_headers.get(&block_header.block_num) {
            Some(existing) => BlockUpdate {
                header: existing.header,
                is_relevant: existing.is_relevant || is_relevant,
            },
            None => BlockUpdate { header: block_header, is_relevant },
        };
        self.block_headers.insert(block_header.block_num, update);
    }

    /// Adds authentication nodes.
    pub fn extend_authentication_nodes(&mut self, nodes: Vec<(InOrderIndex, Word)>)
        ensures
            final(self).block_headers == old(self).block_headers,
            final(self).new_peaks == old(self).new_peaks,
            final(self).new_authentication_nodes@ == old(self).new_authentication_nodes@ + nodes@,
    {
        let mut nodes = nodes;
        self.new_authentication_nodes.append(&mut nodes);
    }

    /// Returns the headers in the order of their blocks.
    pub fn block_headers(&self) -> (headers: Vec<BlockUpdate>)
        ensures
            headers@ == self.block_headers.listing().map_values(
                |entry: (BlockNumber, BlockUpdate)| entry.1,
            ),
    {
        let mut headers: Vec<BlockUpdate> = Vec::new();
        let ghost all = self.block_headers.listing().map_values(
            |entry: (BlockNumber, BlockUpdate)| entry.1,
        );
        let mut i: usize = 0;
        while i < self.block_headers.len()
            invariant
                i <= self.block_headers.listing().len(),
                all == self.block_headers.listing().map_values(
                    |entry: (BlockNumber, BlockUpdate)| entry.1,
                ),
                headers@ == all.take(i as int),
            decreases self.block_headers.listing().len() - i,
        {
            headers.push(self.block_headers.entries()[i].1);
            assert(all.take(i + 1) =~= all.take(i as int).push(all[i as int]));
            i += 1;
        }
        assert(all.take(all.len() as int) =~= all);
        headers
    }

    /// Returns the headers to be stored, in the order of their blocks.
    pub fn block_headers_to_store(&self, sync_height: BlockNumber) -> (headers: Vec<BlockUpdate>)
        ensures
            headers@ == stored_of(self.block_headers.listing(), sync_height),
    {
        let mut headers: Vec<BlockUpdate> = Vec::new();
        let ghost all = self.block_headers.listing();
        let mut i: usize = 0;
        while i < self.block_headers.len()
            invariant
                i <= self.block_headers.listing().len(),
                all == self.block_headers.listing(),
                headers@ == stored_of(all.take(i as int), sync_height),
            decreases self.block_headers.listing().len() - i,
        {
            let update = self.block_headers.entries()[i].1;
            assert(all.take(i + 1).drop_last() =~= all.take(i as int));
            assert(all.take(i + 1).last() == all[i as int]);
            if update.is_relevant || update.header.block_num == GENESIS || update.header.block_num
                == sync_height {
                headers.push(update);
            }
            i += 1;
        }
        assert(all.take(all.len() as int) =~= all);
        headers
    }

    /// Returns the nodes that authenticate headers.
    pub fn new_authentication_nodes(&self) -> (nodes: &Vec<(InOrderIndex, Word)>)
        ensures
            *nodes == self.new_authentication_nodes,
    {
        &self.new_authentication_nodes
    }
}

/// Adding a header keeps all headers there were, and makes no block irrelevant that was relevant.
pub proof fn law_relevance_only_grows(
    headers: Map<BlockNumber, BlockUpdate>,
    header: BlockHeader,
    is_relevant: bool,
    block_num: BlockNumber,
)
    requires
        headers.contains_key(block_num),
    ensures
        with_header(headers, header, is_relevant).contains_key(block_num),
        with_header(headers, header, is_relevant)[block_num].header == headers[block_num].header,
        headers[block_num].is_relevant ==> with_header(
            headers,
            header,
            is_relevant,
        )[block_num].is_relevant,
{
}

/// Every relevant block is stored, at whatever sync height.
pub proof fn law_relevant_blocks_are_stored(
    entries: Seq<(BlockNumber, BlockUpdate)>,
    sync_height: BlockNumber,
    i: int,
)
    requires
        0 <= i < entries.len(),
        entries[i].1.is_relevant,
    ensures
        stored_of(entries, sync_height).contains(entries[i].1),
    decreases entries.len(),
{
    let rest = stored_of(entries.drop_last(), sync_height);
    let all = stored_of(entries, sync_height);
    if i < entries.len() - 1 {
        law_relevant_blocks_are_stored(entries.drop_last(), sync_height, i);
        let k = choose|k: int| 0 <= k < rest.len() && rest[k] == entries[i].1;
        assert(all[k] == entries[i].1);
    } else {
        assert(all[all.len() - 1] == entries[i].1);
    }
}

} // verus!
