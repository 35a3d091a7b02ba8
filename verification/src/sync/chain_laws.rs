//! What following the chain comes to, over all answers of a node.
use vstd::arithmetic::power2::{lemma2_to64, lemma_pow2_pos, lemma_pow2_unfold, pow2};
use vstd::prelude::*;

use crate::collections::{
    first_some, has_key, law_first_some, lemma_picks_next, lemma_picks_none, picks,
};
use crate::errors::{ChainValidationError, SyncError};
use crate::mmr::{
    after_track, after_untrack, authenticates, canonical, delta_applied, in_order, leaf_appended,
    max_leaves, nodes_after_untrack, numbers_hash, path_index, path_opens, peaks_hash, sibling,
    tree_covers, with_entries, with_path, InOrderIndex, MmrDelta, MmrModel, MmrPeaks,
};
use crate::rpc::domain::note::SyncNotesBlock;
use crate::rpc::domain::sync::ChainMmrInfo;
use crate::rpc::domain::transaction::TransactionRecord;
use crate::sync::block_header::{
    are_blocks, block_nodes, blocks_inserted, cut_length, cut_path, is_fresh, lemma_tree_unique,
    placed_path, AuthenticatedBlock, CachedPartialMmr, NoteBlock,
};
use crate::sync::blockchain_updates::{stored_of, with_header, BlockUpdate};
use crate::sync::chain_sync::{
    advance_problem, advanced, chain_answer_problem, left_at_failure, lists_new_nodes,
    note_block_problems, note_blocks_tracked, stages_new_nodes, stopped, transaction_problems,
    RelevantNoteBlock,
};
use crate::types::{BlockHeader, BlockNumber, Word};

verus! {

// HEADERS
// ================================================================================================
/// The first header of a block is kept; the block is relevant once any of its headers came as
/// relevant. Other blocks stay as they are.
pub proof fn law_with_header(
    headers: Map<BlockNumber, BlockUpdate>,
    header: BlockHeader,
    is_relevant: bool,
    other: BlockNumber,
)
    ensures
        ({
            let now = with_header(headers, header, is_relevant);
            let block_num = header.block_num;
            &&& now.contains_key(block_num)
            &&& !headers.contains_key(block_num) ==> now[block_num].header == header
                && now[block_num].is_relevant == is_relevant
            &&& headers.contains_key(block_num) ==> now[block_num].header
                == headers[block_num].header
            &&& headers.contains_key(block_num) && (is_relevant || headers[block_num].is_relevant)
                ==> now[block_num].is_relevant
            &&& headers.contains_key(block_num) && !is_relevant && !headers[block_num].is_relevant
                ==> !now[block_num].is_relevant
            &&& other != block_num ==> now.contains_key(other) == headers.contains_key(other) && (
            headers.contains_key(other) ==> now[other] == headers[other])
        }),
{
}

/// The headers that are stored are those of the relevant blocks, of the first block and of the last
/// one, all of them, in order.
pub proof fn law_stored_headers(
    entries: Seq<(BlockNumber, BlockUpdate)>,
    sync_height: BlockNumber,
)
    ensures
        picks(
            stored_of(entries, sync_height),
            entries.len() as int,
            |i: int| entries[i].1.is_relevant || entries[i].1.header.block_num == 0
                || entries[i].1.header.block_num == sync_height,
            |i: int| entries[i].1,
        ),
    decreases entries.len(),
{
    let wanted = |i: int| entries[i].1.is_relevant || entries[i].1.header.block_num == 0
                || entries[i].1.header.block_num == sync_height;
    let value = |i: int| entries[i].1;
    if entries.len() == 0 {
        lemma_picks_none(wanted, value);
    } else {
        let entries_before = entries.drop_last();
        law_stored_headers(entries_before, sync_height);
        lemma_picks_next(
            stored_of(entries_before, sync_height),
            |i: int| entries_before[i].1.is_relevant || entries_before[i].1.header.block_num == 0
                || entries_before[i].1.header.block_num == sync_height,
            |i: int| entries_before[i].1,
            stored_of(entries, sync_height),
            entries.len() as int,
            wanted,
            value,
        );
    }
}

// VALIDATION
// ================================================================================================
/// An answer is accepted if and only if it starts where the client is, leads to the block of its
/// header, does not lead back, and its header is signed. What is reported otherwise is wrong with it.
pub proof fn law_chain_answer(
    info: ChainMmrInfo,
    current: BlockNumber,
    signatures_valid: bool,
)
    ensures
        ({
            let problem = chain_answer_problem(info, current, signatures_valid);
            let header = info.block_header.block_num;
            let (from, to) = (info.block_from, info.block_to);
            &&& problem is None <==> from == current && to == header && to >= current
                && signatures_valid
            &&& header != to <==> problem == Some(
                ChainValidationError::HeaderNotAtTarget { header, block_to: to },
            )
            &&& header == to && from != current <==> problem == Some(
                ChainValidationError::StartMismatch { expected: current, received: from },
            )
            &&& header == to && from == current && to < current <==> problem == Some(
                ChainValidationError::BehindCurrent { current, block_to: to },
            )
            &&& header == to && from == current && to >= current && !signatures_valid <==> problem
                == Some(ChainValidationError::InvalidSignatures { block_num: header })
        }),
{
}

/// Note blocks are accepted if and only if each lies after the current block and not after the tip;
/// the first one that does not is what is reported.
pub proof fn law_note_blocks_in_range(
    note_blocks: Seq<SyncNotesBlock>,
    current: BlockNumber,
    chain_tip: BlockNumber,
)
    ensures
        first_some(note_block_problems(note_blocks, current, chain_tip)) is None <==> forall|i: int|
            0 <= i < note_blocks.len() ==> (#[trigger] note_blocks[i]).block_header.block_num
                > current && note_blocks[i].block_header.block_num <= chain_tip,
        first_some(note_block_problems(note_blocks, current, chain_tip)) matches Some(problem)
            ==> exists|i: int|
            {
                let block_num = (#[trigger] note_blocks[i]).block_header.block_num;
                &&& 0 <= i < note_blocks.len()
                &&& block_num <= current || block_num > chain_tip
                &&& problem == ChainValidationError::NoteBlockOutOfRange {
                    block_num,
                    current,
                    chain_tip,
                }
                &&& forall|j: int|
                    0 <= j < i ==> (#[trigger] note_blocks[j]).block_header.block_num > current
                        && note_blocks[j].block_header.block_num <= chain_tip
            },
{
    let problems = note_block_problems(note_blocks, current, chain_tip);
    law_first_some(problems);
    assert(problems.len() == note_blocks.len());
    if first_some(problems) is Some {
        let i = choose|i: int|
            0 <= i < problems.len() && #[trigger] problems[i] == first_some(problems) && forall|
                j: int,
            |
                0 <= j < i ==> #[trigger] problems[j] is None;
        let block_num = note_blocks[i].block_header.block_num;
        assert(problems[i] is Some);
        assert(block_num <= current || block_num > chain_tip);
        assert forall|j: int| 0 <= j < i implies (#[trigger] note_blocks[j]).block_header.block_num
            > current && note_blocks[j].block_header.block_num <= chain_tip by {
            assert(problems[j] is None);
        }
    } else {
        assert forall|i: int| 0 <= i < note_blocks.len() implies (
        #[trigger] note_blocks[i]).block_header.block_num > current
            && note_blocks[i].block_header.block_num <= chain_tip by {
            assert(problems[i] is None);
        }
    }
}

/// Transactions are accepted if and only if each lies after the current block and not after the tip;
/// the first one that does not is what is reported.
pub proof fn law_transactions_in_range(
    records: Seq<TransactionRecord>,
    current: BlockNumber,
    chain_tip: BlockNumber,
)
    ensures
        first_some(transaction_problems(records, current, chain_tip)) is None <==> forall|i: int|
            0 <= i < records.len() ==> (#[trigger] records[i]).block_num > current
                && records[i].block_num <= chain_tip,
        first_some(transaction_problems(records, current, chain_tip)) matches Some(problem)
            ==> exists|i: int|
            {
                let block_num = (#[trigger] records[i]).block_num;
                &&& 0 <= i < records.len()
                &&& block_num <= current || block_num > chain_tip
                &&& problem == ChainValidationError::TransactionOutOfRange {
                    block_num,
                    current,
                    chain_tip,
                }
                &&& forall|j: int|
                    0 <= j < i ==> (#[trigger] records[j]).block_num > current
                        && records[j].block_num <= chain_tip
            },
{
    let problems = transaction_problems(records, current, chain_tip);
    law_first_some(problems);
    assert(problems.len() == records.len());
    if first_some(problems) is Some {
        let i = choose|i: int|
            0 <= i < problems.len() && #[trigger] problems[i] == first_some(problems) && forall|
                j: int,
            |
                0 <= j < i ==> #[trigger] problems[j] is None;
        let block_num = records[i].block_num;
        assert(problems[i] is Some);
        assert(block_num <= current || block_num > chain_tip);
        assert forall|j: int| 0 <= j < i implies (#[trigger] records[j]).block_num > current
            && records[j].block_num <= chain_tip by {
            assert(problems[j] is None);
        }
    } else {
        assert forall|i: int| 0 <= i < records.len() implies (#[trigger] records[i]).block_num
            > current && records[i].block_num <= chain_tip by {
            assert(problems[i] is None);
        }
    }
}

// MOUNTAIN RANGE
// ================================================================================================
/// The range follows the chain if and only if the delta fits it, the peaks that this gives are those
/// the tip commits to, and there is room for one more leaf. It is reported which of these failed.
pub proof fn law_advance_problem(mmr: MmrModel, delta: MmrDelta, tip: BlockHeader)
    ensures
        ({
            let applied = delta_applied(mmr, delta.forest as nat, delta.data@);
            let problem = advance_problem(mmr, delta, tip);
            &&& applied is None <==> problem == Some(SyncError::InvalidDelta)
            &&& applied matches Some((peaks, _)) ==> {
                let hash = peaks_hash(delta.forest as nat, peaks);
                &&& problem is None <==> hash == Some(tip.chain_commitment) && delta.forest
                    < max_leaves()
                &&& hash == Some(tip.chain_commitment) && delta.forest >= max_leaves() <==> problem
                    == Some(SyncError::ChainTooLong)
                &&& hash != Some(tip.chain_commitment) ==> problem == Some(
                    SyncError::Validation(
                        ChainValidationError::PeaksMismatch {
                            computed: hash->0,
                            expected: tip.chain_commitment,
                        },
                    ),
                )
            }
        }),
{
}

/// A range that cannot follow the chain is as it was if the delta does not fit, and otherwise where
/// the delta led to.
pub proof fn law_stopped(mmr: MmrModel, delta: MmrDelta)
    ensures
        ({
            let now = stopped(mmr, delta);
            let applied = delta_applied(mmr, delta.forest as nat, delta.data@);
            &&& now.leaves_kept == mmr.leaves_kept
            &&& applied is None ==> now == mmr
            &&& applied matches Some((peaks, added)) ==> now.leaves == delta.forest && now.peaks
                == peaks && now.nodes == with_entries(mmr.nodes, added)
        }),
{
}

/// A range that follows the chain has one leaf more than the delta led to. Its peaks and nodes are
/// those of appending the tip, which is not tracked, after the delta. The nodes that were added are
/// those of the delta, and then those of the tip.
pub proof fn law_advanced(mmr: MmrModel, delta: MmrDelta, tip: BlockHeader)
    requires
        delta_applied(mmr, delta.forest as nat, delta.data@) is Some,
    ensures
        ({
            let (now, added) = advanced(mmr, delta, tip);
            let applied = delta_applied(mmr, delta.forest as nat, delta.data@)->0;
            let between = MmrModel {
                leaves: delta.forest as nat,
                peaks: applied.0,
                nodes: with_entries(mmr.nodes, applied.1),
                leaves_kept: mmr.leaves_kept,
            };
            let appended = leaf_appended(between, tip.commitment, false);
            &&& now.leaves == delta.forest + 1
            &&& now.peaks == appended.0
            &&& now.nodes == appended.1
            &&& now.leaves_kept == mmr.leaves_kept
            &&& added == applied.1 + appended.2
        }),
{
}

/// The last entry for an index is what is put there.
pub proof fn law_last_entry_counts(
    nodes: Map<InOrderIndex, Word>,
    entries: Seq<(InOrderIndex, Word)>,
    i: int,
)
    requires
        0 <= i < entries.len(),
        forall|j: int| i < j < entries.len() ==> (#[trigger] entries[j]).0 != entries[i].0,
    ensures
        with_entries(nodes, entries).contains_key(entries[i].0),
        with_entries(nodes, entries)[entries[i].0] == entries[i].1,
    decreases entries.len(),
{
    if i < entries.len() - 1 {
        assert(entries[entries.len() - 1].0 != entries[i].0);
        law_last_entry_counts(nodes, entries.drop_last(), i);
    }
}

/// An index without an entry keeps its node.
pub proof fn law_other_nodes_stay(
    nodes: Map<InOrderIndex, Word>,
    entries: Seq<(InOrderIndex, Word)>,
    index: InOrderIndex,
)
    requires
        forall|i: int| 0 <= i < entries.len() ==> (#[trigger] entries[i]).0 != index,
    ensures
        with_entries(nodes, entries).contains_key(index) == nodes.contains_key(index),
        nodes.contains_key(index) ==> with_entries(nodes, entries)[index] == nodes[index],
    decreases entries.len(),
{
    if entries.len() > 0 {
        assert(entries[entries.len() - 1].0 != index);
        law_other_nodes_stay(nodes, entries.drop_last(), index);
    }
}

/// The elements of a word are reduced into the field: they are below its modulus, and differ from
/// what they were by a multiple of it.
pub proof fn law_canonical(word: Word)
    ensures
        canonical(word).e0 < 0xffff_ffff_0000_0001,
        canonical(word).e1 < 0xffff_ffff_0000_0001,
        canonical(word).e2 < 0xffff_ffff_0000_0001,
        canonical(word).e3 < 0xffff_ffff_0000_0001,
        (word.e0 - canonical(word).e0) % 0xffff_ffff_0000_0001 == 0,
        (word.e1 - canonical(word).e1) % 0xffff_ffff_0000_0001 == 0,
        (word.e2 - canonical(word).e2) % 0xffff_ffff_0000_0001 == 0,
        (word.e3 - canonical(word).e3) % 0xffff_ffff_0000_0001 == 0,
{
}

/// The other child of the same parent is another node, and has the node as its other child.
pub proof fn law_sibling(offset: nat)
    ensures
        sibling(offset) != offset,
        sibling(offset) / 2 == offset / 2,
        sibling(sibling(offset)) == offset,
{
}

/// Indices are in order: the leaf at an offset has twice the offset plus one, and a parent stands
/// halfway between its children.
pub proof fn law_in_order(level: nat, offset: nat)
    ensures
        in_order(0, offset) == 2 * offset + 1,
        2 * in_order(level + 1, offset) == in_order(level, 2 * offset) + in_order(
            level,
            2 * offset + 1,
        ),
        in_order(level, 2 * offset) < in_order(level + 1, offset) < in_order(level, 2 * offset + 1),
{
    lemma2_to64();
    lemma_pow2_unfold(level + 1);
    lemma_pow2_pos(level);
    let p = pow2(level);
    let child = in_order(level, 2 * offset);
    let other = in_order(level, 2 * offset + 1);
    let parent = in_order(level + 1, offset);
    assert(child == (4 * offset + 1) * p) by (nonlinear_arith)
        requires
            child == (2 * (2 * offset) + 1) * p,
    ;
    assert(other == (4 * offset + 3) * p) by (nonlinear_arith)
        requires
            other == (2 * (2 * offset + 1) + 1) * p,
    ;
    assert(parent == (4 * offset + 2) * p) by (nonlinear_arith)
        requires
            parent == (2 * offset + 1) * (2 * p),
    ;
    assert(child + p == parent && parent + p == other) by (nonlinear_arith)
        requires
            child == (4 * offset + 1) * p,
            other == (4 * offset + 3) * p,
            parent == (4 * offset + 2) * p,
    ;
}

/// The node of a path at a level is the other child of the parent of the node above the leaf there.
pub proof fn law_path_index(position: nat, level: nat)
    ensures
        ({
            let above = position / pow2(level);
            path_index(position, level) == if above % 2 == 0 {
                in_order(level, above + 1)
            } else {
                in_order(level, (above - 1) as nat)
            }
        }),
        path_index(position, 0) == if position % 2 == 0 {
            2 * position + 3
        } else {
            (2 * position - 1) as nat
        },
{
    lemma2_to64();
    assert(position / 1 == position);
    assert(in_order(0, sibling(position)) == 2 * sibling(position) + 1);
}

/// A tree covers as many leaves as a power of two, and only leaves that there are.
pub proof fn law_tree_covers(leaves: nat, depth: nat, position: nat)
    requires
        tree_covers(leaves, depth, position),
    ensures
        position < leaves,
        leaves / pow2(depth) % 2 == 1,
        leaves / pow2(depth + 1) * pow2(depth + 1) <= position,
        position < leaves / pow2(depth + 1) * pow2(depth + 1) + pow2(depth),
{
    let p = pow2(depth) as int;
    let n = leaves as int;
    lemma_pow2_pos(depth);
    lemma_pow2_unfold(depth + 1);
    let q = n / p;
    vstd::arithmetic::div_mod::lemma_div_denominator(n, p, 2);
    assert(p * 2 == 2 * p);
    assert(n / (2 * p) == q / 2);
    vstd::arithmetic::div_mod::lemma_fundamental_div_mod(n, p);
    assert(q == 2 * (q / 2) + 1);
    assert((q / 2) * (2 * p) + p == q * p) by (nonlinear_arith)
        requires
            q == 2 * (q / 2) + 1,
    ;
    assert(q * p <= n) by (nonlinear_arith)
        requires
            n == p * q + n % p,
            n % p >= 0,
    ;
}

/// The nodes of a path are put in their places, from the leaf up, each reduced into the field: where
/// no later one has the same place, the node is there.
pub proof fn law_path_is_placed(
    nodes: Map<InOrderIndex, Word>,
    position: nat,
    path: Seq<Word>,
    n: nat,
    level: nat,
)
    requires
        level < n <= path.len(),
        forall|later: nat|
            level < later < n ==> #[trigger] path_index(position, later) as u64 != path_index(
                position,
                level,
            ) as u64,
    ensures
        with_path(nodes, position, path, n).contains_key(path_index(position, level) as u64),
        with_path(nodes, position, path, n)[path_index(position, level) as u64] == canonical(
            path[level as int],
        ),
    decreases n,
{
    if level < n - 1 {
        let last = (n - 1) as nat;
        assert(path_index(position, last) as u64 != path_index(position, level) as u64);
        law_path_is_placed(nodes, position, path, last, level);
    }
}

/// A place that is not on the path keeps its node.
pub proof fn law_off_the_path(
    nodes: Map<InOrderIndex, Word>,
    position: nat,
    path: Seq<Word>,
    n: nat,
    index: InOrderIndex,
)
    requires
        forall|level: nat| level < n ==> #[trigger] path_index(position, level) as u64 != index,
    ensures
        with_path(nodes, position, path, n).contains_key(index) == nodes.contains_key(index),
        nodes.contains_key(index) ==> with_path(nodes, position, path, n)[index] == nodes[index],
    decreases n,
{
    if n > 0 {
        let last = (n - 1) as nat;
        assert(path_index(position, last) as u64 != index);
        law_off_the_path(nodes, position, path, last, index);
    }
}

/// Tracking a leaf keeps the leaf and its path, and changes neither the leaves nor the peaks. Giving
/// it up again leaves the tracked leaves as they were, if it was not tracked before.
pub proof fn law_track_and_untrack(mmr: MmrModel, position: nat, leaf: Word, path: Seq<Word>)
    ensures
        ({
            let kept = after_track(mmr, position, leaf, path);
            let given_up = after_untrack(kept, position);
            &&& kept.leaves == mmr.leaves && given_up.leaves == mmr.leaves
            &&& kept.peaks == mmr.peaks && given_up.peaks == mmr.peaks
            &&& forall|other: nat| #[trigger]
                kept.leaves_kept.contains(other) <==> other == position
                    || mmr.leaves_kept.contains(other)
            &&& !mmr.leaves_kept.contains(position) ==> given_up.leaves_kept == mmr.leaves_kept
            &&& !given_up.leaves_kept.contains(position)
            &&& given_up.nodes == nodes_after_untrack(kept, position)
            &&& kept.nodes == with_path(
                mmr.nodes.insert((2 * position + 1) as u64, canonical(leaf)),
                position,
                path,
                path.len(),
            )
        }),
{
    law_in_order(0, position);
    let kept = after_track(mmr, position, leaf, path);
    if !mmr.leaves_kept.contains(position) {
        assert(after_untrack(kept, position).leaves_kept =~= mmr.leaves_kept);
    }
}

/// A path authenticates a leaf if and only if there is such a leaf, the path is as long as the tree
/// of the leaf is deep, and it leads to the peak.
pub proof fn law_authenticates(mmr: MmrModel, position: nat, leaf: Word, path: Seq<Word>)
    ensures
        authenticates(mmr, position, leaf, path) <==> position < mmr.leaves && tree_covers(
            mmr.leaves,
            path.len(),
            position,
        ) && path_opens(mmr.leaves, mmr.peaks, position, leaf, path),
{
}

// BLOCKS
// ================================================================================================
/// A path is cut where the tree of the leaf ends: nothing is left out below, and nothing is added.
pub proof fn law_cut_path(leaves: nat, position: nat, path: Seq<Word>, depth: nat)
    requires
        tree_covers(leaves, depth, position),
    ensures
        path.len() <= depth ==> cut_path(leaves, position, path) == path,
        path.len() >= depth ==> cut_path(leaves, position, path) == path.take(depth as int),
        cut_path(leaves, position, path).len() == cut_length(leaves, position, path.len()),
{
    let chosen = choose|d: nat| tree_covers(leaves, d, position);
    lemma_tree_unique(leaves, position, depth, chosen);
    if path.len() <= depth {
        assert(cut_path(leaves, position, path) =~= path);
    }
}

/// Each node of a path is listed with its place, from the leaf up.
pub proof fn law_placed_path(position: nat, path: Seq<Word>, n: nat)
    ensures
        placed_path(position, path, n).len() == n,
        forall|level: int|
            #![trigger placed_path(position, path, n)[level]]
            0 <= level < n ==> {
                &&& placed_path(position, path, n)[level].0 == path_index(
                    position,
                    level as nat,
                ) as u64
                &&& placed_path(position, path, n)[level].1 == path[level]
            },
{
}

/// A header is stored with its leaf, and then with the part of its path that lies in its tree.
pub proof fn law_block_nodes(mmr: MmrModel, block: NoteBlock, depth: nat)
    requires
        tree_covers(mmr.leaves, depth, block.block_header.block_num as nat),
        block.mmr_path@.len() >= depth,
    ensures
        ({
            let nodes = block_nodes(mmr, block);
            let position = block.block_header.block_num as nat;
            &&& nodes.len() == depth + 1
            &&& nodes[0] == ((2 * position + 1) as u64, block.block_header.commitment)
            &&& forall|level: int|
                0 <= level < depth ==> #[trigger] nodes[level + 1] == (
                    path_index(position, level as nat) as u64,
                    block.mmr_path@[level],
                )
        }),
{
    let position = block.block_header.block_num as nat;
    law_cut_path(mmr.leaves, position, block.mmr_path@, depth);
    law_in_order(0, position);
}

/// Blocks are tracked one after the other, up to the first that fails: tracking some, and then
/// others, is tracking all of them. A block that is tracked is skipped; any other is tracked and
/// stored if its path authenticates it, and is what failed if not.
pub proof fn law_blocks_inserted(
    mmr: MmrModel,
    blocks: Seq<NoteBlock>,
    others: Seq<NoteBlock>,
    block: NoteBlock,
)
    ensures
        blocks_inserted(mmr, Seq::empty()) == Ok::<_, (BlockNumber, MmrModel)>(
            (mmr, Seq::<(BlockHeader, Seq<(InOrderIndex, Word)>)>::empty()),
        ),
        blocks_inserted(mmr, blocks) is Err ==> blocks_inserted(mmr, blocks + others)
            == blocks_inserted(mmr, blocks),
        blocks_inserted(mmr, blocks) matches Ok((now, stored)) ==> match blocks_inserted(
            now,
            others,
        ) {
            Ok((after, more)) => blocks_inserted(mmr, blocks + others) == Ok::<
                _,
                (BlockNumber, MmrModel),
            >((after, stored + more)),
            Err(failed) => blocks_inserted(mmr, blocks + others) == Err::<
                (MmrModel, Seq<(BlockHeader, Seq<(InOrderIndex, Word)>)>),
                _,
            >(failed),
        },
        ({
            let header = block.block_header;
            let position = header.block_num as nat;
            let path = cut_path(mmr.leaves, position, block.mmr_path@);
            let one = blocks_inserted(mmr, seq![block]);
            &&& mmr.leaves_kept.contains(position) ==> one == blocks_inserted(mmr, Seq::empty())
            &&& !mmr.leaves_kept.contains(position) && !authenticates(
                mmr,
                position,
                header.commitment,
                path,
            ) ==> (one matches Err((failed, left)) && failed == header.block_num && left == mmr)
            &&& !mmr.leaves_kept.contains(position) && authenticates(
                mmr,
                position,
                header.commitment,
                path,
            ) ==> (one matches Ok((now, stored)) && now == after_track(
                mmr,
                position,
                header.commitment,
                path,
            ) && stored == seq![(header, block_nodes(mmr, block))])
        }),
    decreases others.len(),
{
    assert(seq![block].drop_last() =~= Seq::empty());
    assert(blocks_inserted(mmr, Seq::<NoteBlock>::empty()) is Ok);
    assert(Seq::<(BlockHeader, Seq<(InOrderIndex, Word)>)>::empty().push(
        (block.block_header, block_nodes(mmr, block)),
    ) =~= seq![(block.block_header, block_nodes(mmr, block))]);
    if others.len() == 0 {
        assert(blocks + others =~= blocks);
        if let Ok((now, stored)) = blocks_inserted(mmr, blocks) {
            assert(stored + Seq::<(BlockHeader, Seq<(InOrderIndex, Word)>)>::empty() =~= stored);
        }
    } else {
        law_blocks_inserted(mmr, blocks, others.drop_last(), block);
        assert((blocks + others).drop_last() =~= blocks + others.drop_last());
        assert((blocks + others).last() == others.last());
        if let Ok((now, stored)) = blocks_inserted(mmr, blocks) {
            if let Ok((after, more)) = blocks_inserted(now, others.drop_last()) {
                let entry = (others.last().block_header, block_nodes(after, others.last()));
                assert((stored + more).push(entry) =~= stored + more.push(entry));
            }
        }
    }
}

/// Authenticated blocks are compared as a whole: header by header, and node by node.
pub proof fn law_are_blocks(
    blocks: Seq<AuthenticatedBlock>,
    expected: Seq<(BlockHeader, Seq<(InOrderIndex, Word)>)>,
)
    ensures
        are_blocks(blocks, expected) ==> blocks.len() == expected.len() && forall|k: int|
            0 <= k < blocks.len() ==> (#[trigger] blocks[k]).block_header == expected[k].0
                && blocks[k].nodes@ == expected[k].1,
{
}

/// Note blocks are checked one after the other, up to the first that fails: checking some, and then
/// others, is checking all of them.
pub proof fn law_note_blocks_in_parts(
    mmr: MmrModel,
    headers: Map<BlockNumber, BlockUpdate>,
    blocks: Seq<RelevantNoteBlock>,
    others: Seq<RelevantNoteBlock>,
    unspent: Seq<BlockNumber>,
)
    ensures
        note_blocks_tracked(mmr, headers, Seq::empty(), unspent) == Ok::<_, BlockNumber>(
            (mmr, headers),
        ),
        note_blocks_tracked(mmr, headers, blocks + others, unspent) == match note_blocks_tracked(
            mmr,
            headers,
            blocks,
            unspent,
        ) {
            Ok((now, stored)) => note_blocks_tracked(now, stored, others, unspent),
            Err(failed) => Err(failed),
        },
        note_blocks_tracked(mmr, headers, blocks, unspent) is Err ==> left_at_failure(
            mmr,
            headers,
            blocks + others,
            unspent,
        ) == left_at_failure(mmr, headers, blocks, unspent),
        note_blocks_tracked(mmr, headers, blocks, unspent) matches Ok((now, stored)) ==> (others.len()
            > 0 ==> left_at_failure(mmr, headers, blocks + others, unspent) == left_at_failure(
            now,
            stored,
            others,
            unspent,
        )),
    decreases others.len(),
{
    if others.len() == 0 {
        assert(blocks + others =~= blocks);
    } else {
        let shorter = others.drop_last();
        law_note_blocks_in_parts(mmr, headers, blocks, shorter, unspent);
        assert((blocks + others).drop_last() =~= blocks + shorter);
        assert((blocks + others).last() == others.last());
        if shorter.len() == 0 {
            assert(blocks + shorter =~= blocks);
        }
    }
}

/// A note block fails if and only if its path does not authenticate it, and then leaves all as it
/// was. It is kept, with its header, if an observer requires it or a note in it is unspent, wherever
/// it stands among the blocks with unspent notes. Any other block leaves the headers as they were,
/// and is tracked only if it was.
pub proof fn law_note_block(
    mmr: MmrModel,
    headers: Map<BlockNumber, BlockUpdate>,
    block: RelevantNoteBlock,
    unspent: Seq<BlockNumber>,
)
    ensures
        ({
            let header = block.block_header;
            let position = header.block_num as nat;
            let opened = position < mmr.leaves && tree_covers(
                mmr.leaves,
                block.mmr_path@.len(),
                position,
            ) && path_opens(mmr.leaves, mmr.peaks, position, header.commitment, block.mmr_path@);
            let required = block.observer_requires_block || exists|k: int|
                0 <= k < unspent.len() && #[trigger] unspent[k] == header.block_num;
            let one = note_blocks_tracked(mmr, headers, seq![block], unspent);
            let with_path = after_track(mmr, position, header.commitment, block.mmr_path@);
            &&& !opened <==> one == Err::<(MmrModel, Map<BlockNumber, BlockUpdate>), _>(
                header.block_num,
            )
            &&& !opened ==> left_at_failure(mmr, headers, seq![block], unspent) == (mmr, headers)
            &&& opened && required ==> one == Ok::<_, BlockNumber>(
                (with_path, with_header(headers, header, true)),
            )
            &&& opened && !required && mmr.leaves_kept.contains(position) ==> one == Ok::<
                _,
                BlockNumber,
            >((with_path, headers))
            &&& opened && !required && !mmr.leaves_kept.contains(position) ==> one == Ok::<
                _,
                BlockNumber,
            >((after_untrack(with_path, position), headers))
        }),
{
    assert(seq![block].drop_last() =~= Seq::empty());
    assert(note_blocks_tracked(mmr, headers, Seq::<RelevantNoteBlock>::empty(), unspent) is Ok);
    if unspent.contains(block.block_header.block_num) {
        let k = choose|k: int|
            0 <= k < unspent.len() && unspent[k] == block.block_header.block_num;
        assert(unspent[k] == block.block_header.block_num);
    }
}

/// A node is staged if and only if it is kept now and was not before, once, with the value it has
/// now, in the order of the indices.
pub proof fn law_new_nodes_are_listed(
    before: Map<InOrderIndex, Word>,
    after: Map<InOrderIndex, Word>,
    added: Seq<(InOrderIndex, Word)>,
    index: InOrderIndex,
)
    requires
        lists_new_nodes(before, after, added),
    ensures
        after.contains_key(index) && !before.contains_key(index) <==> exists|i: int|
            0 <= i < added.len() && (#[trigger] added[i]).0 == index,
        forall|i: int|
            0 <= i < added.len() && (#[trigger] added[i]).0 == index ==> added[i].1 == after[index],
        forall|i: int, j: int|
            0 <= i < j < added.len() ==> (#[trigger] added[i]).0 < (#[trigger] added[j]).0,
{
    assert(has_key(added, index) <==> after.contains_key(index) && !before.contains_key(index));
    assert forall|i: int, j: int| 0 <= i < j < added.len() implies (#[trigger] added[i]).0 < (
    #[trigger] added[j]).0 by {
        assert(crate::collections::OrdKey::rank(added[i].0) < crate::collections::OrdKey::rank(
            added[j].0,
        ));
    }
}

/// A cached range is used if and only if both the peaks and the tracked blocks of the store have the
/// hashes they had.
pub proof fn law_is_fresh(
    cached: CachedPartialMmr,
    store_peaks: MmrPeaks,
    tracked_blocks: Seq<u32>,
)
    ensures
        is_fresh(cached, store_peaks, tracked_blocks) <==> peaks_hash(
            store_peaks.forest as nat,
            store_peaks.peaks@,
        ) == Some(cached.store_peaks_hash) && numbers_hash(tracked_blocks)
            == cached.tracked_blocks_hash,
{
}


/// What was staged stays in front, and the new nodes come after it.
pub proof fn law_staged_nodes(
    before: Map<InOrderIndex, Word>,
    after: Map<InOrderIndex, Word>,
    staged: Seq<(InOrderIndex, Word)>,
    staged_after: Seq<(InOrderIndex, Word)>,
)
    requires
        stages_new_nodes(before, after, staged, staged_after),
    ensures
        staged.is_prefix_of(staged_after),
        lists_new_nodes(before, after, staged_after.skip(staged.len() as int)),
{
    let added = choose|added: Seq<(InOrderIndex, Word)>| #[trigger]
        lists_new_nodes(before, after, added) && staged_after == staged + added;
    assert(staged =~= staged_after.take(staged.len() as int));
    assert(staged_after.skip(staged.len() as int) =~= added);
}

} // verus!
