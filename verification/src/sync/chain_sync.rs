//! Following the chain to its tip: checking what a node sends, and advancing the mountain range.
use miden_protocol::crypto::merkle::mmr::PartialMmr;
use vstd::prelude::*;

use crate::collections::{
    contains_key, first_some, has_key, keys_ascending, lemma_first_some_at, lemma_first_some_step,
    OrdKey,
};
use crate::errors::{ChainValidationError, SyncError};
use crate::mmr::{
    after_track, after_untrack, append, apply, authenticates, delta_applied, hash_peaks, is_tracked,
    leaf_appended, max_leaves, mmr_leaves, mmr_nodes, model, nodes, num_leaves, peaks, peaks_hash,
    track, tree_covers, tree_depth, untrack, with_entries, InOrderIndex, MmrDelta, MmrModel,
};
use crate::rpc::domain::note::SyncNotesBlock;
use crate::rpc::domain::sync::ChainMmrInfo;
use crate::rpc::domain::transaction::TransactionRecord;
use crate::sync::block_header::lemma_tree_unique;
use crate::sync::blockchain_updates::{with_header, BlockUpdate, PartialBlockchainUpdates};
use crate::types::{BlockHeader, BlockNumber, Word};

verus! {

// VALIDATION
// ================================================================================================
/// Why an answer to a request for the chain from `current` on is refused.
pub open spec fn chain_answer_problem(
    info: ChainMmrInfo,
    current: BlockNumber,
    signatures_valid: bool,
) -> Option<ChainValidationError> {
    if info.block_header.block_num != info.block_to {
        Some(
            ChainValidationError::HeaderNotAtTarget {
                header: info.block_header.block_num,
                block_to: info.block_to,
            },
        )
    } else if info.block_from != current {
        Some(
            ChainValidationError::StartMismatch { expected: current, received: info.block_from },
        )
    } else if info.block_to < current {
        Some(ChainValidationError::BehindCurrent { current, block_to: info.block_to })
    } else if !signatures_valid {
        Some(
            ChainValidationError::InvalidSignatures { block_num: info.block_header.block_num },
        )
    } else {
        None
    }
}

/// Checks an answer to a request for the chain. `signatures_valid` tells whether the validators
/// signed the header of the block the delta leads to.
pub fn validate_chain_mmr_response(
    chain_mmr_info: &ChainMmrInfo,
    current_block_num: BlockNumber,
    signatures_valid: bool,
) -> (checked: Result<(), SyncError>)
    ensures
        match checked {
            Ok(_) => chain_answer_problem(
                *chain_mmr_info,
                current_block_num,
                signatures_valid,
            ) is None,
            Err(error) => match chain_answer_problem(
                *chain_mmr_info,
                current_block_num,
                signatures_valid,
            ) {
                Some(problem) => error == SyncError::Validation(problem),
                None => false,
            },
        },
{
    let header: BlockNumber = chain_mmr_info.block_header.block_num;
    let block_to: BlockNumber = chain_mmr_info.block_to;
    if header != block_to {
        return Err(
            SyncError::Validation(ChainValidationError::HeaderNotAtTarget { header, block_to }),
        );
    }
    if chain_mmr_info.block_from != current_block_num {
        return Err(
            SyncError::Validation(
                ChainValidationError::StartMismatch {
                    expected: current_block_num,
                    received: chain_mmr_info.block_from,
                },
            ),
        );
    }
    if block_to < current_block_num {
        return Err(
            SyncError::Validation(
                ChainValidationError::BehindCurrent { current: current_block_num, block_to },
            ),
        );
    }
    if !signatures_valid {
        return Err(
            SyncError::Validation(ChainValidationError::InvalidSignatures { block_num: header }),
        );
    }
    Ok(())
}

/// The block lies after `current`, and not after the chain tip.
pub open spec fn in_range(block_num: BlockNumber, current: BlockNumber, chain_tip: BlockNumber) -> bool {
    current < block_num <= chain_tip
}

/// Which note blocks lie outside of the range, one by one.
pub open spec fn note_block_problems(
    note_blocks: Seq<SyncNotesBlock>,
    current: BlockNumber,
    chain_tip: BlockNumber,
) -> Seq<Option<ChainValidationError>> {
    note_blocks.map_values(
        |block: SyncNotesBlock|
            if in_range(block.block_header.block_num, current, chain_tip) {
                None
            } else {
                Some(
                    ChainValidationError::NoteBlockOutOfRange {
                        block_num: block.block_header.block_num,
                        current,
                        chain_tip,
                    },
                )
            },
    )
}

/// Which transactions lie outside of the range, one by one.
pub open spec fn transaction_problems(
    records: Seq<TransactionRecord>,
    current: BlockNumber,
    chain_tip: BlockNumber,
) -> Seq<Option<ChainValidationError>> {
    records.map_values(
        |record: TransactionRecord|
            if in_range(record.block_num, current, chain_tip) {
                None
            } else {
                Some(
                    ChainValidationError::TransactionOutOfRange {
                        block_num: record.block_num,
                        current,
                        chain_tip,
                    },
                )
            },
    )
}

/// Checks that every note block lies in the requested range.
pub fn validate_note_blocks_range(
    note_blocks: &Vec<SyncNotesBlock>,
    current_block_num: BlockNumber,
    chain_tip: BlockNumber,
) -> (checked: Result<(), SyncError>)
    ensures
        match checked {
            Ok(_) => first_some(
                note_block_problems(note_blocks@, current_block_num, chain_tip),
            ) is None,
            Err(error) => match first_some(
                note_block_problems(note_blocks@, current_block_num, chain_tip),
            ) {
                Some(problem) => error == SyncError::Validation(problem),
                None => false,
            },
        },
{
    let ghost problems = note_block_problems(note_blocks@, current_block_num, chain_tip);
    let mut i: usize = 0;
    while i < note_blocks.len()
        invariant
            i <= note_blocks.len(),
            problems == note_block_problems(note_blocks@, current_block_num, chain_tip),
            first_some(problems.take(i as int)) is None,
        decreases note_blocks.len() - i,
    {
        let block_num: BlockNumber = note_blocks[i].block_header.block_num;
        assert(problems.len() == note_blocks@.len());
        if block_num <= current_block_num || block_num > chain_tip {
            proof {
                lemma_first_some_at(problems, i as int);
            }
            return Err(
                SyncError::Validation(
                    ChainValidationError::NoteBlockOutOfRange {
                        block_num,
                        current: current_block_num,
                        chain_tip,
                    },
                ),
            );
        }
        proof {
            lemma_first_some_step(problems, i as int);
        }
        i += 1;
    }
    assert(problems.take(note_blocks.len() as int) =~= problems);
    Ok(())
}

/// Checks that every transaction lies in the requested range.
pub fn validate_transaction_records_range(
    records: &Vec<TransactionRecord>,
    current_block_num: BlockNumber,
    chain_tip: BlockNumber,
) -> (checked: Result<(), SyncError>)
    ensures
        match checked {
            Ok(_) => first_some(
                transaction_problems(records@, current_block_num, chain_tip),
            ) is None,
            Err(error) => match first_some(
                transaction_problems(records@, current_block_num, chain_tip),
            ) {
                Some(problem) => error == SyncError::Validation(problem),
                None => false,
            },
        },
{
    let ghost problems = transaction_problems(records@, current_block_num, chain_tip);
    let mut i: usize = 0;
    while i < records.len()
        invariant
            i <= records.len(),
            problems == transaction_problems(records@, current_block_num, chain_tip),
            first_some(problems.take(i as int)) is None,
        decreases records.len() - i,
    {
        let block_num: BlockNumber = records[i].block_num;
        assert(problems.len() == records@.len());
        if block_num <= current_block_num || block_num > chain_tip {
            proof {
                lemma_first_some_at(problems, i as int);
            }
            return Err(
                SyncError::Validation(
                    ChainValidationError::TransactionOutOfRange {
                        block_num,
                        current: current_block_num,
                        chain_tip,
                    },
                ),
            );
        }
        proof {
            lemma_first_some_step(problems, i as int);
        }
        i += 1;
    }
    assert(problems.take(records.len() as int) =~= problems);
    Ok(())
}

/// Returns the number of the last block in the mountain range, which is one less than the number
/// of its leaves.
pub fn block_num_from_forest(partial_mmr: &PartialMmr) -> (block_num: Result<BlockNumber, SyncError>)
    ensures
        block_num == Ok::<_, SyncError>(
            if mmr_leaves(*partial_mmr) == 0 {
                0u32
            } else {
                (mmr_leaves(*partial_mmr) - 1) as u32
            },
        ),
{
    Ok(num_leaves(partial_mmr).saturating_sub(1))
}

// FETCHING
// ================================================================================================
/// What is to be fetched next in a sync.
#[derive(Clone, Copy, Debug, PartialEq, Eq, Structural)]
pub enum FetchPlan {
    /// The client is at the chain tip, and nothing is fetched.
    AtChainTip,
    /// The notes and the transactions of the blocks of a range, both ends included, are fetched:
    /// notes only if there are tags to ask for, and transactions only if accounts are tracked.
    Fetch {
        block_from: BlockNumber,
        block_to: BlockNumber,
        notes: bool,
        transactions: bool,
    },
}

/// Returns what is to be fetched after an answer to the request for the chain.
pub fn plan_fetch(
    chain_mmr_info: &ChainMmrInfo,
    current_block_num: BlockNumber,
    signatures_valid: bool,
    has_note_tags: bool,
    has_accounts: bool,
) -> (plan: Result<FetchPlan, SyncError>)
    ensures
        match chain_answer_problem(*chain_mmr_info, current_block_num, signatures_valid) {
            Some(problem) => plan == Err::<FetchPlan, _>(SyncError::Validation(problem)),
            None => if chain_mmr_info.block_to == current_block_num {
                plan == Ok::<_, SyncError>(FetchPlan::AtChainTip)
            } else {
                plan == Ok::<_, SyncError>(
                    FetchPlan::Fetch {
                        block_from: (current_block_num + 1) as u32,
                        block_to: chain_mmr_info.block_to,
                        notes: has_note_tags,
                        transactions: has_accounts,
                    },
                )
            },
        },
{
    if let Err(error) = validate_chain_mmr_response(
        chain_mmr_info,
        current_block_num,
        signatures_valid,
    ) {
        return Err(error);
    }
    if chain_mmr_info.block_to == current_block_num {
        return Ok(FetchPlan::AtChainTip);
    }
    Ok(
        FetchPlan::Fetch {
            block_from: current_block_num + 1,
            block_to: chain_mmr_info.block_to,
            notes: has_note_tags,
            transactions: has_accounts,
        },
    )
}

/// Checks that what was fetched lies in the requested range: the note blocks first, and then the
/// transactions.
pub fn validate_fetched(
    note_blocks: &Vec<SyncNotesBlock>,
    transactions: &Vec<TransactionRecord>,
    current_block_num: BlockNumber,
    chain_tip: BlockNumber,
) -> (checked: Result<(), SyncError>)
    ensures
        ({
            let notes = first_some(note_block_problems(note_blocks@, current_block_num, chain_tip));
            let txs = first_some(transaction_problems(transactions@, current_block_num, chain_tip));
            match checked {
                Ok(_) => notes is None && txs is None,
                Err(error) => match notes {
                    Some(problem) => error == SyncError::Validation(problem),
                    None => txs is Some && error == SyncError::Validation(txs->0),
                },
            }
        }),
{
    if let Err(error) = validate_note_blocks_range(note_blocks, current_block_num, chain_tip) {
        return Err(error);
    }
    validate_transaction_records_range(transactions, current_block_num, chain_tip)
}

// MOUNTAIN RANGE
// ================================================================================================
/// The mountain range after the delta of a chain answer, before the chain tip is added.
pub open spec fn delta_model(
    mmr: MmrModel,
    forest: u32,
    applied: (Seq<Word>, Seq<(InOrderIndex, Word)>),
) -> MmrModel {
    MmrModel {
        leaves: forest as nat,
        peaks: applied.0,
        nodes: with_entries(mmr.nodes, applied.1),
        leaves_kept: mmr.leaves_kept,
    }
}

/// Why the mountain range cannot follow the chain to the tip.
pub open spec fn advance_problem(mmr: MmrModel, delta: MmrDelta, tip: BlockHeader) -> Option<
    SyncError,
> {
    match delta_applied(mmr, delta.forest as nat, delta.data@) {
        None => Some(SyncError::InvalidDelta),
        Some((peaks, added)) => {
            let hash = peaks_hash(delta.forest as nat, peaks);
            if hash != Some(tip.chain_commitment) {
                Some(
                    SyncError::Validation(
                        ChainValidationError::PeaksMismatch {
                            computed: hash->0,
                            expected: tip.chain_commitment,
                        },
                    ),
                )
            } else if delta.forest >= max_leaves() {
                Some(SyncError::ChainTooLong)
            } else {
                None
            }
        },
    }
}

/// The mountain range that is left where it cannot follow the chain to the tip: a delta that fits
/// stays applied.
pub open spec fn stopped(mmr: MmrModel, delta: MmrDelta) -> MmrModel {
    match delta_applied(mmr, delta.forest as nat, delta.data@) {
        None => mmr,
        Some(applied) => delta_model(mmr, delta.forest, applied),
    }
}

/// The mountain range after it followed the chain to the tip, and the nodes that were added to it.
pub open spec fn advanced(mmr: MmrModel, delta: MmrDelta, tip: BlockHeader) -> (
    MmrModel,
    Seq<(InOrderIndex, Word)>,
) {
    let applied = delta_applied(mmr, delta.forest as nat, delta.data@)->0;
    let (peaks, nodes, added) = leaf_appended(
        delta_model(mmr, delta.forest, applied),
        tip.commitment,
        false,
    );
    (
        MmrModel {
            leaves: (delta.forest + 1) as nat,
            peaks,
            nodes,
            leaves_kept: mmr.leaves_kept,
        },
        applied.1 + added,
    )
}

/// Follows the chain to its tip: applies the delta, checks that the peaks are those the header of
/// the tip commits to, and adds the tip as the last leaf.
pub fn advance_mmr(
    mmr_delta: &MmrDelta,
    chain_tip_header: &BlockHeader,
    current_partial_mmr: &mut PartialMmr,
    partial_blockchain_updates: &mut PartialBlockchainUpdates,
) -> (done: Result<(), SyncError>)
    requires
        mmr_delta.forest <= max_leaves(),
    ensures
        match advance_problem(model(*old(current_partial_mmr)), *mmr_delta, *chain_tip_header) {
            Some(problem) => {
                &&& done == Err::<(), _>(problem)
                &&& *final(partial_blockchain_updates) == *old(partial_blockchain_updates)
                &&& model(*final(current_partial_mmr)) == stopped(
                    model(*old(current_partial_mmr)),
                    *mmr_delta,
                )
            },
            None => {
                let before = model(*old(current_partial_mmr));
                let (after, added) = advanced(before, *mmr_delta, *chain_tip_header);
                let applied = delta_applied(before, mmr_delta.forest as nat, mmr_delta.data@)->0;
                &&& done is Ok
                &&& model(*final(current_partial_mmr)) == after
                &&& final(partial_blockchain_updates).new_peaks.forest == mmr_delta.forest
                &&& final(partial_blockchain_updates).new_peaks.peaks@ == applied.0
                &&& final(partial_blockchain_updates).block_headers@ == with_header(
                    old(partial_blockchain_updates).block_headers@,
                    *chain_tip_header,
                    false,
                )
                &&& final(partial_blockchain_updates).new_authentication_nodes@ == old(partial_blockchain_updates).new_authentication_nodes@ + added
            },
        },
{
    let mut new_authentication_nodes = match apply(current_partial_mmr, mmr_delta) {
        Ok(added) => added,
        Err(_) => {
            return Err(SyncError::InvalidDelta);
        },
    };
    let new_peaks = peaks(current_partial_mmr);
    // The commitment of the header is the hash of the peaks over all blocks before it, which is the
    // state after the delta.
    if let Some(computed) = hash_peaks(&new_peaks) {
        if computed != chain_tip_header.chain_commitment {
            return Err(
                SyncError::Validation(
                    ChainValidationError::PeaksMismatch {
                        computed,
                        expected: chain_tip_header.chain_commitment,
                    },
                ),
            );
        }
    }
    let mut tip_nodes = match append(current_partial_mmr, chain_tip_header.commitment, false) {
        Ok(added) => added,
        Err(_) => {
            return Err(SyncError::ChainTooLong);
        },
    };
    partial_blockchain_updates.new_peaks = new_peaks;
    new_authentication_nodes.append(&mut tip_nodes);
    partial_blockchain_updates.insert(*chain_tip_header, false);
    partial_blockchain_updates.extend_authentication_nodes(new_authentication_nodes);
    Ok(())
}

// NOTE BLOCKS
// ================================================================================================
/// A block with notes that matter to the client, or that an observer wants kept.
#[derive(Debug)]
pub struct RelevantNoteBlock {
    pub block_header: BlockHeader,
    pub mmr_path: Vec<Word>,
    pub observer_requires_block: bool,
}

/// What checking the note blocks one after the other leaves: the mountain range, and the headers to
/// be stored, or the first block whose path does not authenticate it.
///
/// The path of every block is checked. It is kept for a block that an observer requires or that
/// holds unspent notes, and given up again for another one that was not tracked before.
pub open spec fn note_blocks_tracked(
    mmr: MmrModel,
    headers: Map<BlockNumber, BlockUpdate>,
    blocks: Seq<RelevantNoteBlock>,
    unspent: Seq<BlockNumber>,
) -> Result<(MmrModel, Map<BlockNumber, BlockUpdate>), BlockNumber>
    decreases blocks.len(),
{
    if blocks.len() == 0 {
        Ok((mmr, headers))
    } else {
        match note_blocks_tracked(mmr, headers, blocks.drop_last(), unspent) {
            Err(failed) => Err(failed),
            Ok((now, stored)) => {
                let header = blocks.last().block_header;
                let position = header.block_num as nat;
                let path = blocks.last().mmr_path@;
                let with_path = after_track(now, position, header.commitment, path);
                if !authenticates(now, position, header.commitment, path) {
                    Err(header.block_num)
                } else if blocks.last().observer_requires_block || unspent.contains(
                    header.block_num,
                ) {
                    Ok((with_path, with_header(stored, header, true)))
                } else if now.leaves_kept.contains(position) {
                    Ok((with_path, stored))
                } else {
                    Ok((after_untrack(with_path, position), stored))
                }
            },
        }
    }
}

/// The mountain range and the headers that are left where a block cannot be authenticated: those of
/// the blocks before it.
pub open spec fn left_at_failure(
    mmr: MmrModel,
    headers: Map<BlockNumber, BlockUpdate>,
    blocks: Seq<RelevantNoteBlock>,
    unspent: Seq<BlockNumber>,
) -> (MmrModel, Map<BlockNumber, BlockUpdate>)
    decreases blocks.len(),
{
    if blocks.len() == 0 {
        (mmr, headers)
    } else {
        match note_blocks_tracked(mmr, headers, blocks.drop_last(), unspent) {
            Ok(left) => left,
            Err(_) => left_at_failure(mmr, headers, blocks.drop_last(), unspent),
        }
    }
}

/// `added` lists the nodes that are kept now and were not before, by their indices.
pub open spec fn lists_new_nodes(
    before: Map<InOrderIndex, Word>,
    after: Map<InOrderIndex, Word>,
    added: Seq<(InOrderIndex, Word)>,
) -> bool {
    &&& keys_ascending(added)
    &&& forall|index: InOrderIndex| #[trigger]
        has_key(added, index) <==> after.contains_key(index) && !before.contains_key(index)
    &&& forall|i: int|
        0 <= i < added.len() ==> after.contains_key((#[trigger] added[i]).0) && after[added[i].0]
            == added[i].1
}

/// The nodes that are kept now and were not before have been staged after those in `staged`.
pub open spec fn stages_new_nodes(
    before: Map<InOrderIndex, Word>,
    after: Map<InOrderIndex, Word>,
    staged: Seq<(InOrderIndex, Word)>,
    staged_after: Seq<(InOrderIndex, Word)>,
) -> bool {
    exists|added: Seq<(InOrderIndex, Word)>| #[trigger]
        lists_new_nodes(before, after, added) && staged_after == staged + added
}

/// The first block that cannot be authenticated decides, whatever comes after it.
proof fn lemma_note_blocks_prefix(
    mmr: MmrModel,
    headers: Map<BlockNumber, BlockUpdate>,
    blocks: Seq<RelevantNoteBlock>,
    unspent: Seq<BlockNumber>,
    n: int,
)
    requires
        0 <= n <= blocks.len(),
        note_blocks_tracked(mmr, headers, blocks.take(n), unspent) is Err,
    ensures
        note_blocks_tracked(mmr, headers, blocks, unspent) == note_blocks_tracked(
            mmr,
            headers,
            blocks.take(n),
            unspent,
        ),
        left_at_failure(mmr, headers, blocks, unspent) == left_at_failure(
            mmr,
            headers,
            blocks.take(n),
            unspent,
        ),
    decreases blocks.len() - n,
{
    if n < blocks.len() {
        assert(blocks.take(n + 1).drop_last() =~= blocks.take(n));
        lemma_note_blocks_prefix(mmr, headers, blocks, unspent, n + 1);
    } else {
        assert(blocks.take(n) =~= blocks);
    }
}

/// Checks the path of a block against the mountain range and starts tracking it.
fn track_authenticated(partial_mmr: &mut PartialMmr, header: &BlockHeader, path: &Vec<Word>) -> (done:
    bool)
    ensures
        done == authenticates(
            model(*old(partial_mmr)),
            header.block_num as nat,
            header.commitment,
            path@,
        ),
        model(*final(partial_mmr)) == if done {
            after_track(
                model(*old(partial_mmr)),
                header.block_num as nat,
                header.commitment,
                path@,
            )
        } else {
            model(*old(partial_mmr))
        },
{
    let leaves: u32 = num_leaves(partial_mmr);
    match tree_depth(leaves, header.block_num) {
        None => false,
        Some(depth) => {
            if depth as usize != path.len() {
                proof {
                    if tree_covers(leaves as nat, path@.len(), header.block_num as nat) {
                        lemma_tree_unique(
                            leaves as nat,
                            header.block_num as nat,
                            depth as nat,
                            path@.len(),
                        );
                    }
                }
                return false;
            }
            track(partial_mmr, header.block_num, header.commitment, path).is_ok()
        },
    }
}

/// Returns true if an entry has the index.
fn has_node(entries: &Vec<(InOrderIndex, Word)>, index: InOrderIndex) -> (found: bool)
    ensures
        found == has_key(entries@, index),
{
    let mut i: usize = 0;
    while i < entries.len()
        invariant
            i <= entries.len(),
            forall|k: int| 0 <= k < i ==> (#[trigger] entries@[k]).0 != index,
        decreases entries.len() - i,
    {
        if entries[i].0 == index {
            assert(entries@[i as int].0 == index);
            return true;
        }
        i += 1;
    }
    false
}

/// Returns the nodes that are kept now and were not before.
fn new_nodes(
    before: &Vec<(InOrderIndex, Word)>,
    partial_mmr: &PartialMmr,
    Ghost(nodes_before): Ghost<Map<InOrderIndex, Word>>,
) -> (added: Vec<(InOrderIndex, Word)>)
    requires
        forall|index: InOrderIndex| #[trigger]
            has_key(before@, index) <==> nodes_before.contains_key(index),
    ensures
        lists_new_nodes(nodes_before, mmr_nodes(*partial_mmr), added@),
{
    let all = nodes(partial_mmr);
    let ghost after = mmr_nodes(*partial_mmr);
    let mut added: Vec<(InOrderIndex, Word)> = Vec::new();
    let ghost mut source: Seq<int> = Seq::empty();
    let mut i: usize = 0;
    while i < all.len()
        invariant
            i <= all.len(),
            after == mmr_nodes(*partial_mmr),
            keys_ascending(all@),
            forall|k: int|
                0 <= k < all@.len() ==> after.contains_key((#[trigger] all@[k]).0)
                    && after[all@[k].0] == all@[k].1,
            forall|index: InOrderIndex| #[trigger]
                has_key(before@, index) <==> nodes_before.contains_key(index),
            source.len() == added@.len(),
            forall|k: int|
                0 <= k < source.len() ==> 0 <= (#[trigger] source[k]) < i && added@[k]
                    == all@[source[k]] && !nodes_before.contains_key(added@[k].0),
            forall|j: int, k: int|
                0 <= j < k < source.len() ==> (#[trigger] source[j]) < (#[trigger] source[k]),
            forall|k: int|
                0 <= k < i && !nodes_before.contains_key((#[trigger] all@[k]).0) ==> has_key(
                    added@,
                    all@[k].0,
                ),
        decreases all.len() - i,
    {
        let entry = all[i];
        let ghost added_before = added@;
        if !has_node(before, entry.0) {
            added.push(entry);
            proof {
                source = source.push(i as int);
                assert(added@[added@.len() - 1].0 == entry.0);
                assert forall|k: int|
                    0 <= k < i + 1 && !nodes_before.contains_key(
                        (#[trigger] all@[k]).0,
                    ) implies has_key(added@, all@[k].0) by {
                    if k < i {
                        assert(has_key(added_before, all@[k].0));
                        let m = choose|m: int|
                            0 <= m < added_before.len() && (#[trigger] added_before[m]).0
                                == all@[k].0;
                        assert(added@[m].0 == all@[k].0);
                    }
                }
            }
        }
        i += 1;
    }
    proof {
        assert forall|j: int, k: int| 0 <= j < k < added@.len() implies (#[trigger] added@[j]).0.rank()
            < (#[trigger] added@[k]).0.rank() by {
            assert(source[j] < source[k]);
            assert(all@[source[j]].0.rank() < all@[source[k]].0.rank());
        }
        assert forall|index: InOrderIndex| #[trigger]
            has_key(added@, index) <==> after.contains_key(index) && !nodes_before.contains_key(
                index,
            ) by {
            if has_key(added@, index) {
                let k = choose|k: int| 0 <= k < added@.len() && (#[trigger] added@[k]).0 == index;
                assert(added@[k] == all@[source[k]]);
            }
            if after.contains_key(index) && !nodes_before.contains_key(index) {
                assert(has_key(all@, index));
                let k = choose|k: int| 0 <= k < all@.len() && (#[trigger] all@[k]).0 == index;
                assert(has_key(added@, all@[k].0));
            }
        }
        assert forall|k: int| 0 <= k < added@.len() implies after.contains_key(
            (#[trigger] added@[k]).0,
        ) && after[added@[k].0] == added@[k].1 by {
            assert(added@[k] == all@[source[k]]);
        }
    }
    added
}

/// Checks the paths of the note blocks against the mountain range, keeps those that are needed, and
/// stages their headers and the nodes that were added.
pub fn validate_and_track_note_blocks(
    relevant_blocks: &Vec<RelevantNoteBlock>,
    blocks_with_unspent_notes: &Vec<BlockNumber>,
    partial_mmr: &mut PartialMmr,
    partial_blockchain_updates: &mut PartialBlockchainUpdates,
) -> (done: Result<(), SyncError>)
    ensures
        match note_blocks_tracked(
            model(*old(partial_mmr)),
            old(partial_blockchain_updates).block_headers@,
            relevant_blocks@,
            blocks_with_unspent_notes@,
        ) {
            Ok((mmr, headers)) => {
                &&& done is Ok
                &&& model(*final(partial_mmr)) == mmr
                &&& final(partial_blockchain_updates).block_headers@ == headers
                &&& final(partial_blockchain_updates).new_peaks == old(partial_blockchain_updates).new_peaks
                &&& stages_new_nodes(
                    mmr_nodes(*old(partial_mmr)),
                    mmr.nodes,
                    old(partial_blockchain_updates).new_authentication_nodes@,
                    final(partial_blockchain_updates).new_authentication_nodes@,
                )
            },
            Err(block_num) => {
                let (mmr, headers) = left_at_failure(
                    model(*old(partial_mmr)),
                    old(partial_blockchain_updates).block_headers@,
                    relevant_blocks@,
                    blocks_with_unspent_notes@,
                );
                &&& done == Err::<(), _>(SyncError::BlockNotAuthenticated { block_num })
                &&& model(*final(partial_mmr)) == mmr
                &&& final(partial_blockchain_updates).block_headers@ == headers
                &&& final(partial_blockchain_updates).new_peaks == old(partial_blockchain_updates).new_peaks
                &&& final(partial_blockchain_updates).new_authentication_nodes == old(partial_blockchain_updates).new_authentication_nodes
            },
        },
{
    let ghost before = model(*partial_mmr);
    let ghost headers = partial_blockchain_updates.block_headers@;
    let ghost blocks = relevant_blocks@;
    let ghost unspent = blocks_with_unspent_notes@;
    let nodes_before = nodes(partial_mmr);
    let mut i: usize = 0;
    while i < relevant_blocks.len()
        invariant
            i <= relevant_blocks.len(),
            before == model(*old(partial_mmr)),
            headers == old(partial_blockchain_updates).block_headers@,
            blocks == relevant_blocks@,
            unspent == blocks_with_unspent_notes@,
            partial_blockchain_updates.new_peaks == old(partial_blockchain_updates).new_peaks,
            partial_blockchain_updates.new_authentication_nodes == old(partial_blockchain_updates).new_authentication_nodes,
            note_blocks_tracked(before, headers, blocks.take(i as int), unspent) == Ok::<_, BlockNumber>(
                (model(*partial_mmr), partial_blockchain_updates.block_headers@),
            ),
        decreases relevant_blocks.len() - i,
    {
        let block = &relevant_blocks[i];
        let block_num: BlockNumber = block.block_header.block_num;
        proof {
            assert(blocks.take(i + 1).drop_last() =~= blocks.take(i as int));
            assert(blocks.take(i + 1).last() == blocks[i as int]);
        }
        let was_tracked = is_tracked(partial_mmr, block_num);
        if !track_authenticated(partial_mmr, &block.block_header, &block.mmr_path) {
            proof {
                lemma_note_blocks_prefix(before, headers, blocks, unspent, i + 1);
            }
            return Err(SyncError::BlockNotAuthenticated { block_num });
        }
        if block.observer_requires_block || contains_key(blocks_with_unspent_notes, &block_num) {
            partial_blockchain_updates.insert(block.block_header, true);
        } else if !was_tracked {
            untrack(partial_mmr, block_num);
        }
        i += 1;
    }
    proof {
        assert(blocks.take(blocks.len() as int) =~= blocks);
    }
    let added = new_nodes(&nodes_before, partial_mmr, Ghost(before.nodes));
    let ghost listed = added@;
    partial_blockchain_updates.extend_authentication_nodes(added);
    assert(lists_new_nodes(before.nodes, model(*partial_mmr).nodes, listed));
    Ok(())
}

// LAWS
// ================================================================================================
/// Every block with unspent notes, and every block an observer requires, is tracked after the note
/// blocks were checked, and its header is stored as relevant.
pub proof fn law_required_blocks_are_kept(
    mmr: MmrModel,
    headers: Map<BlockNumber, BlockUpdate>,
    blocks: Seq<RelevantNoteBlock>,
    unspent: Seq<BlockNumber>,
    i: int,
)
    requires
        note_blocks_tracked(mmr, headers, blocks, unspent) is Ok,
        0 <= i < blocks.len(),
        blocks[i].observer_requires_block || unspent.contains(blocks[i].block_header.block_num),
    ensures
        ({
            let (after, stored) = note_blocks_tracked(mmr, headers, blocks, unspent)->Ok_0;
            let block_num = blocks[i].block_header.block_num;
            &&& after.leaves_kept.contains(block_num as nat)
            &&& stored.contains_key(block_num)
            &&& stored[block_num].is_relevant
        }),
    decreases blocks.len(),
{
    if i < blocks.len() - 1 {
        assert(blocks.drop_last()[i] == blocks[i]);
        law_required_blocks_are_kept(mmr, headers, blocks.drop_last(), unspent, i);
    }
}

/// A block that was tracked before stays tracked, whatever note blocks are checked.
pub proof fn law_tracked_blocks_stay_tracked(
    mmr: MmrModel,
    headers: Map<BlockNumber, BlockUpdate>,
    blocks: Seq<RelevantNoteBlock>,
    unspent: Seq<BlockNumber>,
    position: nat,
)
    requires
        note_blocks_tracked(mmr, headers, blocks, unspent) is Ok,
        mmr.leaves_kept.contains(position),
    ensures
        (note_blocks_tracked(mmr, headers, blocks, unspent)->Ok_0).0.leaves_kept.contains(position),
    decreases blocks.len(),
{
    if blocks.len() > 0 {
        law_tracked_blocks_stay_tracked(mmr, headers, blocks.drop_last(), unspent, position);
    }
}

/// Checking note blocks leaves the leaves and the peaks of the mountain range as they are.
pub proof fn law_note_blocks_leave_the_chain(
    mmr: MmrModel,
    headers: Map<BlockNumber, BlockUpdate>,
    blocks: Seq<RelevantNoteBlock>,
    unspent: Seq<BlockNumber>,
)
    requires
        note_blocks_tracked(mmr, headers, blocks, unspent) is Ok,
    ensures
        (note_blocks_tracked(mmr, headers, blocks, unspent)->Ok_0).0.leaves == mmr.leaves,
        (note_blocks_tracked(mmr, headers, blocks, unspent)->Ok_0).0.peaks == mmr.peaks,
    decreases blocks.len(),
{
    if blocks.len() > 0 {
        law_note_blocks_leave_the_chain(mmr, headers, blocks.drop_last(), unspent);
    }
}

/// A range that followed the chain to a tip holds one leaf more than the delta led to, and its peaks
/// before that leaf are those the header of the tip commits to.
pub proof fn law_advance_is_committed(mmr: MmrModel, delta: MmrDelta, tip: BlockHeader)
    requires
        advance_problem(mmr, delta, tip) is None,
    ensures
        advanced(mmr, delta, tip).0.leaves == delta.forest + 1,
        advanced(mmr, delta, tip).0.leaves_kept == mmr.leaves_kept,
        delta_applied(mmr, delta.forest as nat, delta.data@) matches Some(applied) && peaks_hash(
            delta.forest as nat,
            applied.0,
        ) == Some(tip.chain_commitment),
{
}

} // verus!
