//! Block headers the client can authenticate: their places in the chain's mountain range.
use miden_protocol::crypto::merkle::mmr::PartialMmr;
use vstd::arithmetic::power2::{lemma_pow2_pos, lemma_pow2_unfold, pow2};
use vstd::prelude::*;

use crate::errors::SyncError;
use crate::mmr::{
    after_track, authenticates, copy, hash_numbers, hash_peaks, in_order, is_tracked, max_leaves,
    mmr_leaves, model, num_leaves, numbers_hash, path_index, peaks_hash, track, tree_covers,
    tree_depth, InOrderIndex, MmrModel, MmrPeaks,
};
use crate::types::{BlockHeader, BlockNumber, Word};

verus! {

/// The nodes on the path of the leaf at `position`, each with its place: the first `n` of them.
pub open spec fn placed_path(position: nat, path: Seq<Word>, n: nat) -> Seq<(InOrderIndex, Word)> {
    Seq::new(n, |level: int| (path_index(position, level as nat) as u64, path[level]))
}

/// Depth of the tree that covers the leaf at `position` in a range of `leaves` leaves.
pub open spec fn tree_depth_of(leaves: nat, position: nat) -> nat {
    choose|depth: nat| tree_covers(leaves, depth, position)
}

/// The length to which a path is cut in a range of `leaves` leaves: no longer than the tree of the
/// leaf is deep.
pub open spec fn cut_length(leaves: nat, position: nat, path_len: nat) -> nat {
    let depth = tree_depth_of(leaves, position);
    if path_len < depth {
        path_len
    } else {
        depth
    }
}

/// The part of a path that lies in the tree of the leaf.
pub open spec fn cut_path(leaves: nat, position: nat, path: Seq<Word>) -> Seq<Word> {
    path.take(cut_length(leaves, position, path.len()) as int)
}

/// The tree that covers a leaf is unique.
pub proof fn lemma_tree_unique(leaves: nat, position: nat, a: nat, b: nat)
    requires
        tree_covers(leaves, a, position),
        tree_covers(leaves, b, position),
    ensures
        a == b,
{
    if a < b {
        lemma_trees_disjoint(leaves, position, a, b);
    } else if b < a {
        lemma_trees_disjoint(leaves, position, b, a);
    }
}

/// A leaf covered by a tree is not covered by a deeper one.
proof fn lemma_trees_disjoint(leaves: nat, position: nat, a: nat, b: nat)
    requires
        tree_covers(leaves, a, position),
        leaves / pow2(b) % 2 == 1,
        a < b,
    ensures
        !tree_covers(leaves, b, position),
{
    let pa = pow2(a + 1) as int;
    let pb = pow2(b) as int;
    let n = leaves as int;
    lemma_pow2_pos(a + 1);
    lemma_pow2_pos(b);
    lemma_pow2_pos((b - a - 1) as nat);
    let r = pow2((b - a - 1) as nat) as int;
    vstd::arithmetic::power2::lemma_pow2_adds((b - a - 1) as nat, a + 1);
    assert(pb == r * pa);
    lemma_pow2_unfold(b + 1);
    // The deeper tree ends at a multiple of its own size, at or before the start of the other.
    let q = n / pb;
    let start_b = n / (2 * pb) * (2 * pb);
    assert(start_b + pb == q * pb) by {
        vstd::arithmetic::div_mod::lemma_div_denominator(n, pb, 2);
        assert(n / (pb * 2) == q / 2);
        assert(pb * 2 == 2 * pb);
        assert(q == 2 * (q / 2) + 1);
        assert((q / 2) * (2 * pb) + pb == (2 * (q / 2) + 1) * pb) by (nonlinear_arith);
    }
    let start_a = n / pa * pa;
    assert(q * pb <= start_a) by {
        vstd::arithmetic::div_mod::lemma_fundamental_div_mod(n, pb);
        assert(q * pb <= n) by (nonlinear_arith)
            requires
                n == pb * q + n % pb,
                n % pb >= 0,
        ;
        assert(q * pb == (q * r) * pa) by (nonlinear_arith)
            requires
                pb == r * pa,
        ;
        vstd::arithmetic::div_mod::lemma_div_is_ordered((q * r) * pa, n, pa);
        vstd::arithmetic::div_mod::lemma_div_by_multiple(q * r, pa);
        assert((q * r) * pa / pa == q * r);
        assert(q * r <= n / pa);
        assert((q * r) * pa <= (n / pa) * pa) by (nonlinear_arith)
            requires
                q * r <= n / pa,
                pa > 0,
        ;
    }
}

/// Returns the nodes of a path that belong to the tree of the block in a range of `forest` leaves,
/// each with its place in the range. The rest of the path, which leads through later and larger
/// trees, is cut off.
pub fn adjust_merkle_path_for_forest(
    merkle_path: &Vec<Word>,
    block_num: BlockNumber,
    forest: u32,
) -> (path_nodes: Vec<(InOrderIndex, Word)>)
    requires
        block_num < forest <= max_leaves(),
    ensures
        path_nodes@ == placed_path(
            block_num as nat,
            merkle_path@,
            cut_length(forest as nat, block_num as nat, merkle_path@.len()),
        ),
{
    let mut path_nodes: Vec<(InOrderIndex, Word)> = Vec::new();
    if let Some(depth) = tree_depth(forest, block_num) {
        let count: usize = if merkle_path.len() < depth as usize {
            merkle_path.len()
        } else {
            depth as usize
        };
        let mut level: usize = 0;
        let mut weight: u64 = 1;
        let mut offset: u64 = block_num as u64;
        proof {
            vstd::arithmetic::power2::lemma2_to64();
            vstd::arithmetic::power2::lemma2_to64_rest();
        }
        while level < count
            invariant
                level <= count,
                count <= merkle_path.len(),
                count < 32,
                weight == pow2(level as nat),
                1 <= weight <= 0x8000_0000,
                offset == block_num as nat / pow2(level as nat),
                offset <= u32::MAX,
                path_nodes@ == placed_path(block_num as nat, merkle_path@, level as nat),
            decreases count - level,
        {
            let other: u64 = if offset % 2 == 0 {
                offset + 1
            } else {
                offset - 1
            };
            proof {
                vstd::arithmetic::div_mod::lemma_fundamental_div_mod(
                    block_num as int,
                    weight as int,
                );
                assert((2 * other + 1) * weight <= 2 * block_num + 3 * weight && (2 * other + 1)
                    * weight >= 0) by (nonlinear_arith)
                    requires
                        0 <= other <= offset + 1,
                        weight >= 1,
                        block_num == weight * offset + block_num as int % weight as int,
                        block_num as int % weight as int >= 0,
                ;
            }
            let index: u64 = (2 * other + 1) * weight;
            assert(index == path_index(block_num as nat, level as nat));
            path_nodes.push((index, merkle_path[level]));
            assert(path_nodes@ =~= placed_path(block_num as nat, merkle_path@, (level + 1) as nat));
            proof {
                lemma_pow2_unfold((level + 1) as nat);
                lemma_pow2_pos(level as nat);
                vstd::arithmetic::div_mod::lemma_div_denominator(
                    block_num as int,
                    pow2(level as nat) as int,
                    2,
                );
                assert(pow2((level + 1) as nat) == weight * 2);
                if level + 1 < count {
                    vstd::arithmetic::power2::lemma_pow2_strictly_increases(
                        (level + 1) as nat,
                        31,
                    );
                    vstd::arithmetic::power2::lemma2_to64();
                } else {
                    vstd::arithmetic::power2::lemma2_to64();
                    if level + 1 < 31 {
                        vstd::arithmetic::power2::lemma_pow2_strictly_increases(
                            (level + 1) as nat,
                            31,
                        );
                    }
                }
            }
            weight = weight * 2;
            offset = offset / 2;
            level += 1;
        }
        proof {
            lemma_tree_unique(
                forest as nat,
                block_num as nat,
                depth as nat,
                tree_depth_of(forest as nat, block_num as nat),
            );
        }
    }
    path_nodes
}

/// Cuts the path of a block to its tree, and starts tracking the block if the path leads to the
/// mountain range. Returns the nodes of the path, each with its place.
///
/// A path that does not authenticate the block leaves the range as it was.
pub fn track_block_in_mmr(
    partial_mmr: &mut PartialMmr,
    block_num: BlockNumber,
    block_commitment: Word,
    mmr_path: &Vec<Word>,
) -> (path_nodes: Result<Vec<(InOrderIndex, Word)>, SyncError>)
    requires
        block_num < mmr_leaves(*old(partial_mmr)),
    ensures
        ({
            let before = model(*old(partial_mmr));
            let path = cut_path(before.leaves, block_num as nat, mmr_path@);
            match path_nodes {
                Ok(nodes) => {
                    &&& authenticates(before, block_num as nat, block_commitment, path)
                    &&& nodes@ == placed_path(block_num as nat, path, path.len())
                    &&& model(*final(partial_mmr)) == after_track(
                        before,
                        block_num as nat,
                        block_commitment,
                        path,
                    )
                },
                Err(error) => {
                    &&& !authenticates(before, block_num as nat, block_commitment, path)
                    &&& error == (SyncError::BlockNotAuthenticated { block_num })
                    &&& model(*final(partial_mmr)) == before
                },
            }
        }),
{
    let leaves: u32 = num_leaves(partial_mmr);
    let path_nodes = adjust_merkle_path_for_forest(mmr_path, block_num, leaves);
    let ghost before = model(*partial_mmr);
    let ghost path = cut_path(leaves as nat, block_num as nat, mmr_path@);
    assert(path_nodes@ =~= placed_path(block_num as nat, path, path.len()));
    let mut adjusted_path: Vec<Word> = Vec::new();
    let mut i: usize = 0;
    while i < path_nodes.len()
        invariant
            i <= path_nodes.len(),
            path_nodes@ == placed_path(block_num as nat, path, path.len()),
            adjusted_path@ == path.take(i as int),
        decreases path_nodes.len() - i,
    {
        adjusted_path.push(path_nodes[i].1);
        assert(path.take(i + 1) =~= path.take(i as int).push(path[i as int]));
        i += 1;
    }
    assert(adjusted_path@ =~= path);
    match tree_depth(leaves, block_num) {
        Some(depth) => {
            proof {
                lemma_tree_unique(
                    leaves as nat,
                    block_num as nat,
                    depth as nat,
                    tree_depth_of(leaves as nat, block_num as nat),
                );
            }
            if depth as usize != adjusted_path.len() {
                proof {
                    if tree_covers(leaves as nat, path.len(), block_num as nat) {
                        lemma_tree_unique(
                            leaves as nat,
                            block_num as nat,
                            depth as nat,
                            path.len(),
                        );
                    }
                }
                return Err(SyncError::BlockNotAuthenticated { block_num });
            }
        },
        None => {},
    }
    match track(partial_mmr, block_num, block_commitment, &adjusted_path) {
        Ok(_) => Ok(path_nodes),
        Err(_) => Err(SyncError::BlockNotAuthenticated { block_num }),
    }
}

/// Returns the nodes to store with the header of a tracked block: its leaf, and then its path.
pub fn authenticated_block_nodes(
    block_header: &BlockHeader,
    path_nodes: Vec<(InOrderIndex, Word)>,
) -> (nodes: Vec<(InOrderIndex, Word)>)
    ensures
        nodes@ == seq![(in_order(0, block_header.block_num as nat) as u64, block_header.commitment)]
            + path_nodes@,
{
    let ghost all = path_nodes@;
    let mut path_nodes = path_nodes;
    let mut nodes: Vec<(InOrderIndex, Word)> = Vec::new();
    proof {
        vstd::arithmetic::power2::lemma2_to64();
    }
    nodes.push((2 * (block_header.block_num as u64) + 1, block_header.commitment));
    nodes.append(&mut path_nodes);
    assert(nodes@ =~= seq![
        (in_order(0, block_header.block_num as nat) as u64, block_header.commitment),
    ] + all);
    nodes
}

/// A block that holds notes of the client, with the path that authenticates it.
#[derive(Debug)]
pub struct NoteBlock {
    pub block_header: BlockHeader,
    pub mmr_path: Vec<Word>,
}

/// A header to be stored, with the nodes that authenticate it.
#[derive(Debug)]
pub struct AuthenticatedBlock {
    pub block_header: BlockHeader,
    pub nodes: Vec<(InOrderIndex, Word)>,
}

/// The nodes to store with the header of a block, for the mountain range at the time.
pub open spec fn block_nodes(mmr: MmrModel, block: NoteBlock) -> Seq<(InOrderIndex, Word)> {
    let path = cut_path(mmr.leaves, block.block_header.block_num as nat, block.mmr_path@);
    seq![(in_order(0, block.block_header.block_num as nat) as u64, block.block_header.commitment)]
        + placed_path(block.block_header.block_num as nat, path, path.len())
}

/// What tracking the blocks one after the other leaves: the mountain range, and the headers to be
/// stored with their nodes. A block that is tracked already is skipped, and a path that does not
/// authenticate its block ends it all: that block decides, with the range that is left there.
pub open spec fn blocks_inserted(mmr: MmrModel, blocks: Seq<NoteBlock>) -> Result<
    (MmrModel, Seq<(BlockHeader, Seq<(InOrderIndex, Word)>)>),
    (BlockNumber, MmrModel),
>
    decreases blocks.len(),
{
    if blocks.len() == 0 {
        Ok((mmr, Seq::empty()))
    } else {
        match blocks_inserted(mmr, blocks.drop_last()) {
            Err(failed) => Err(failed),
            Ok((now, stored)) => {
                let header = blocks.last().block_header;
                let position = header.block_num as nat;
                let path = cut_path(now.leaves, position, blocks.last().mmr_path@);
                if now.leaves_kept.contains(position) {
                    Ok((now, stored))
                } else if authenticates(now, position, header.commitment, path) {
                    Ok(
                        (
                            after_track(now, position, header.commitment, path),
                            stored.push((header, block_nodes(now, blocks.last()))),
                        ),
                    )
                } else {
                    Err((header.block_num, now))
                }
            },
        }
    }
}

/// The authenticated blocks are those of the list.
pub open spec fn are_blocks(
    blocks: Seq<AuthenticatedBlock>,
    expected: Seq<(BlockHeader, Seq<(InOrderIndex, Word)>)>,
) -> bool {
    &&& blocks.len() == expected.len()
    &&& forall|k: int|
        0 <= k < blocks.len() ==> (#[trigger] blocks[k]).block_header == expected[k].0
            && blocks[k].nodes@ == expected[k].1
}

/// The first block that cannot be authenticated decides, whatever comes after it.
proof fn lemma_blocks_prefix(mmr: MmrModel, blocks: Seq<NoteBlock>, n: int)
    requires
        0 <= n <= blocks.len(),
        blocks_inserted(mmr, blocks.take(n)) is Err,
    ensures
        blocks_inserted(mmr, blocks) == blocks_inserted(mmr, blocks.take(n)),
    decreases blocks.len() - n,
{
    if n < blocks.len() {
        assert(blocks.take(n + 1).drop_last() =~= blocks.take(n));
        lemma_blocks_prefix(mmr, blocks, n + 1);
    } else {
        assert(blocks.take(n) =~= blocks);
    }
}

/// Tracks each block that is not tracked yet, and returns the headers to be stored, each with its
/// leaf and path.
pub fn insert_note_blocks(blocks: &Vec<NoteBlock>, partial_mmr: &mut PartialMmr) -> (stored: Result<
    Vec<AuthenticatedBlock>,
    SyncError,
>)
    requires
        forall|i: int|
            0 <= i < blocks@.len() ==> (#[trigger] blocks@[i]).block_header.block_num < mmr_leaves(
                *old(partial_mmr),
            ),
    ensures
        match blocks_inserted(model(*old(partial_mmr)), blocks@) {
            Ok((mmr, expected)) => {
                &&& stored is Ok
                &&& are_blocks(stored->Ok_0@, expected)
                &&& model(*final(partial_mmr)) == mmr
            },
            Err((block_num, mmr)) => {
                &&& stored == Err::<Vec<AuthenticatedBlock>, _>(
                    SyncError::BlockNotAuthenticated { block_num },
                )
                &&& model(*final(partial_mmr)) == mmr
            },
        },
{
    let ghost before = model(*partial_mmr);
    let mut stored: Vec<AuthenticatedBlock> = Vec::new();
    let mut i: usize = 0;
    while i < blocks.len()
        invariant
            i <= blocks.len(),
            before == model(*old(partial_mmr)),
            model(*partial_mmr).leaves == before.leaves,
            forall|k: int|
                0 <= k < blocks@.len() ==> (#[trigger] blocks@[k]).block_header.block_num
                    < before.leaves,
            blocks_inserted(before, blocks@.take(i as int)) is Ok,
            model(*partial_mmr) == (blocks_inserted(before, blocks@.take(i as int))->Ok_0).0,
            are_blocks(stored@, (blocks_inserted(before, blocks@.take(i as int))->Ok_0).1),
        decreases blocks.len() - i,
    {
        let block = &blocks[i];
        let block_num: u32 = block.block_header.block_num;
        proof {
            assert(blocks@.take(i + 1).drop_last() =~= blocks@.take(i as int));
            assert(blocks@.take(i + 1).last() == blocks@[i as int]);
        }
        if !is_tracked(partial_mmr, block_num) {
            let tracking = track_block_in_mmr(
                partial_mmr,
                block_num,
                block.block_header.commitment,
                &block.mmr_path,
            );
            match tracking {
                Ok(path_nodes) => {
                    let nodes = authenticated_block_nodes(&block.block_header, path_nodes);
                    stored.push(AuthenticatedBlock { block_header: block.block_header, nodes });
                },
                Err(error) => {
                    proof {
                        lemma_blocks_prefix(before, blocks@, i + 1);
                    }
                    return Err(error);
                },
            }
        }
        i += 1;
    }
    assert(blocks@.take(blocks.len() as int) =~= blocks@);
    Ok(stored)
}

// CACHE
// ================================================================================================
/// A partial mountain range kept in memory, with the fingerprint of the store it was built from:
/// the hash of the peaks at the sync height, and the hash of the numbers of the tracked blocks.
///
/// The second part is needed because an update at the same height can make a stored block relevant
/// without changing the peaks.
pub struct CachedPartialMmr {
    pub store_peaks_hash: Word,
    pub tracked_blocks_hash: Word,
    pub mmr: PartialMmr,
}

/// The cached range was built from a store with these peaks and tracked blocks.
pub open spec fn is_fresh(
    cached: CachedPartialMmr,
    store_peaks: MmrPeaks,
    tracked_blocks: Seq<u32>,
) -> bool {
    &&& peaks_hash(store_peaks.forest as nat, store_peaks.peaks@) == Some(cached.store_peaks_hash)
    &&& numbers_hash(tracked_blocks) == cached.tracked_blocks_hash
}

/// Returns a copy of the cached range if caching is enabled and the cache fits the store, whose
/// tracked block numbers are given in ascending order. Otherwise the range is to be rebuilt from
/// the store.
pub fn get_current_partial_mmr(
    cache_partial_mmr_in_memory: bool,
    cached: &Option<CachedPartialMmr>,
    store_peaks: &MmrPeaks,
    tracked_blocks: &Vec<u32>,
) -> (mmr: Option<PartialMmr>)
    ensures
        mmr is Some <==> cache_partial_mmr_in_memory && cached is Some && is_fresh(
            cached->0,
            *store_peaks,
            tracked_blocks@,
        ),
        mmr matches Some(m) ==> model(m) == model(cached->0.mmr),
{
    if !cache_partial_mmr_in_memory {
        return None;
    }
    match cached {
        Some(entry) => match hash_peaks(store_peaks) {
            Some(hash) => {
                if hash == entry.store_peaks_hash && hash_numbers(tracked_blocks)
                    == entry.tracked_blocks_hash {
                    Some(copy(&entry.mmr))
                } else {
                    None
                }
            },
            None => None,
        },
        None => None,
    }
}

/// Returns what is to be kept in memory after the store was changed: the range with the fingerprint
/// of the store, if caching is enabled, and otherwise what was kept before. `None` means that the
/// peaks of the store do not fit the number of its leaves.
pub fn cache_partial_mmr(
    cache_partial_mmr_in_memory: bool,
    previous: Option<CachedPartialMmr>,
    mmr: PartialMmr,
    store_peaks: &MmrPeaks,
    tracked_blocks: &Vec<u32>,
) -> (cached: Option<Option<CachedPartialMmr>>)
    ensures
        !cache_partial_mmr_in_memory ==> cached == Some(previous),
        cache_partial_mmr_in_memory ==> match peaks_hash(
            store_peaks.forest as nat,
            store_peaks.peaks@,
        ) {
            Some(hash) => cached == Some(
                Some(
                    CachedPartialMmr {
                        store_peaks_hash: hash,
                        tracked_blocks_hash: numbers_hash(tracked_blocks@),
                        mmr,
                    },
                ),
            ),
            None => cached is None,
        },
{
    if !cache_partial_mmr_in_memory {
        return Some(previous);
    }
    match hash_peaks(store_peaks) {
        Some(hash) => Some(
            Some(
                CachedPartialMmr {
                    store_peaks_hash: hash,
                    tracked_blocks_hash: hash_numbers(tracked_blocks),
                    mmr,
                },
            ),
        ),
        None => None,
    }
}

/// A range that was just cached is found in the cache as long as the peaks and the tracked blocks
/// of the store stay the same.
pub proof fn law_cached_range_is_fresh(
    mmr: PartialMmr,
    store_peaks: MmrPeaks,
    tracked_blocks: Seq<u32>,
)
    requires
        peaks_hash(store_peaks.forest as nat, store_peaks.peaks@) is Some,
    ensures
        is_fresh(
            CachedPartialMmr {
                store_peaks_hash: peaks_hash(store_peaks.forest as nat, store_peaks.peaks@)->0,
                tracked_blocks_hash: numbers_hash(tracked_blocks),
                mmr,
            },
            store_peaks,
            tracked_blocks,
        ),
{
}

} // verus!
