//! The chain's Merkle mountain range, of which the client keeps the paths it needs.
//!
//! The range itself is kept by `PartialMmr` of the protocol crate. What it holds is described here
//! by four names, and each operation by what it does to them.
use miden_protocol::crypto::merkle::mmr::{Forest, MmrError, PartialMmr};
use miden_protocol::crypto::merkle::MerklePath;
use miden_protocol::Felt;
use vstd::arithmetic::power2::pow2;
use vstd::prelude::*;

use crate::collections::{has_key, keys_ascending};
use crate::types::Word;

verus! {

/// Position of a node of the range: the in-order index of the node in a tree over all leaves.
pub type InOrderIndex = u64;

#[verifier::external_type_specification]
#[verifier::external_body]
pub struct ExPartialMmr(PartialMmr);

#[verifier::external_type_specification]
#[verifier::external_body]
pub struct ExMmrError(MmrError);

/// Number of leaves of the range.
pub uninterp spec fn mmr_leaves(mmr: PartialMmr) -> nat;

/// Roots of the trees that make up the range, largest tree first.
pub uninterp spec fn mmr_peaks(mmr: PartialMmr) -> Seq<Word>;

/// The nodes that are kept, by their in-order index.
pub uninterp spec fn mmr_nodes(mmr: PartialMmr) -> Map<InOrderIndex, Word>;

/// Positions of the leaves whose paths are kept.
pub uninterp spec fn mmr_tracked(mmr: PartialMmr) -> Set<nat>;

/// What a partial range holds.
#[verifier::ext_equal]
pub struct MmrModel {
    pub leaves: nat,
    pub peaks: Seq<Word>,
    pub nodes: Map<InOrderIndex, Word>,
    pub leaves_kept: Set<nat>,
}

/// What the partial range holds.
pub open spec fn model(mmr: PartialMmr) -> MmrModel {
    MmrModel {
        leaves: mmr_leaves(mmr),
        peaks: mmr_peaks(mmr),
        nodes: mmr_nodes(mmr),
        leaves_kept: mmr_tracked(mmr),
    }
}

/// Modulus of the field the elements of a word belong to.
pub open spec fn field_order() -> int {
    0xffff_ffff_0000_0001
}

/// The word with each element reduced into the field.
pub open spec fn canonical(word: Word) -> Word {
    Word {
        e0: (word.e0 as int % field_order()) as u64,
        e1: (word.e1 as int % field_order()) as u64,
        e2: (word.e2 as int % field_order()) as u64,
        e3: (word.e3 as int % field_order()) as u64,
    }
}

/// The tree of `depth` levels covers the leaf at `position` in a range of `leaves` leaves.
///
/// The range has a tree of a depth exactly if the binary digit of that weight in the number of
/// leaves is one, and the trees cover the leaves in order, the largest first.
pub open spec fn tree_covers(leaves: nat, depth: nat, position: nat) -> bool {
    let start = leaves / pow2(depth + 1) * pow2(depth + 1);
    &&& leaves / pow2(depth) % 2 == 1
    &&& start <= position < start + pow2(depth)
}

/// In-order index of the node at `offset` among the nodes of its level.
pub open spec fn in_order(level: nat, offset: nat) -> nat {
    (2 * offset + 1) * pow2(level)
}

/// Offset of the other child of the same parent.
pub open spec fn sibling(offset: nat) -> nat {
    if offset % 2 == 0 {
        offset + 1
    } else {
        (offset - 1) as nat
    }
}

/// In-order index of the node that is `level` steps up the path of the leaf at `position`.
pub open spec fn path_index(position: nat, level: nat) -> nat {
    in_order(level, sibling(position / pow2(level)))
}

/// The nodes with the first `n` nodes of the path of the leaf at `position` put in their places.
pub open spec fn with_path(
    nodes: Map<InOrderIndex, Word>,
    position: nat,
    path: Seq<Word>,
    n: nat,
) -> Map<InOrderIndex, Word>
    decreases n,
{
    if n == 0 {
        nodes
    } else {
        with_path(nodes, position, path, (n - 1) as nat).insert(
            path_index(position, (n - 1) as nat) as u64,
            canonical(path[n - 1]),
        )
    }
}

/// The most leaves a range can have.
pub open spec fn max_leaves() -> nat {
    if u32::MAX < usize::MAX / 2 {
        u32::MAX as nat
    } else {
        (usize::MAX / 2) as nat
    }
}

/// The nodes with the given entries put in their places, one after the other.
pub open spec fn with_entries(
    nodes: Map<InOrderIndex, Word>,
    entries: Seq<(InOrderIndex, Word)>,
) -> Map<InOrderIndex, Word>
    decreases entries.len(),
{
    if entries.len() == 0 {
        nodes
    } else {
        with_entries(nodes, entries.drop_last()).insert(entries.last().0, entries.last().1)
    }
}

/// The peaks after a delta was applied, and the nodes this added; `None` if the delta does not
/// fit.
pub uninterp spec fn delta_applied(
    mmr: MmrModel,
    delta_forest: nat,
    delta_data: Seq<Word>,
) -> Option<(Seq<Word>, Seq<(InOrderIndex, Word)>)>;

/// The peaks and nodes after a leaf was appended, and the nodes this added.
pub uninterp spec fn leaf_appended(mmr: MmrModel, leaf: Word, track: bool) -> (
    Seq<Word>,
    Map<InOrderIndex, Word>,
    Seq<(InOrderIndex, Word)>,
);

/// The path leads from the leaf at `position` to the peak of its tree.
pub uninterp spec fn path_opens(
    leaves: nat,
    peaks: Seq<Word>,
    position: nat,
    leaf: Word,
    path: Seq<Word>,
) -> bool;

/// The nodes that are left when the path of a leaf is given up.
pub uninterp spec fn nodes_after_untrack(mmr: MmrModel, position: nat) -> Map<InOrderIndex, Word>;

/// The hash of the peaks of a range with `forest` leaves; `None` if their number does not fit.
pub uninterp spec fn peaks_hash(forest: nat, peaks: Seq<Word>) -> Option<Word>;

/// The hash of a list of numbers.
pub uninterp spec fn numbers_hash(numbers: Seq<u32>) -> Word;

/// What the range holds after the path of the leaf at `position` was added.
pub open spec fn after_track(mmr: MmrModel, position: nat, leaf: Word, path: Seq<Word>) -> MmrModel {
    MmrModel {
        nodes: with_path(
            mmr.nodes.insert(in_order(0, position) as u64, canonical(leaf)),
            position,
            path,
            path.len(),
        ),
        leaves_kept: mmr.leaves_kept.insert(position),
        ..mmr
    }
}

/// What the range holds after the path of the leaf at `position` was given up.
pub open spec fn after_untrack(mmr: MmrModel, position: nat) -> MmrModel {
    MmrModel {
        nodes: nodes_after_untrack(mmr, position),
        leaves_kept: mmr.leaves_kept.remove(position),
        ..mmr
    }
}

/// The path authenticates the leaf at `position`: the leaf exists, the path is as long as its tree
/// is deep, and it leads to the tree's peak.
pub open spec fn authenticates(mmr: MmrModel, position: nat, leaf: Word, path: Seq<Word>) -> bool {
    &&& position < mmr.leaves
    &&& tree_covers(mmr.leaves, path.len(), position)
    &&& path_opens(mmr.leaves, mmr.peaks, position, leaf, path)
}

/// The peaks of a range together with the number of its leaves.
#[derive(Debug)]
pub struct MmrPeaks {
    /// Number of leaves.
    pub forest: u32,
    /// Roots of the trees, largest tree first.
    pub peaks: Vec<Word>,
}

impl MmrPeaks {
    /// Returns the peaks of an empty range.
    pub fn empty() -> (peaks: Self)
        ensures
            peaks.forest == 0,
            peaks.peaks@ == Seq::<Word>::empty(),
    {
        MmrPeaks { forest: 0, peaks: Vec::new() }
    }
}

/// What turns a range into a later state of itself.
#[derive(Debug)]
pub struct MmrDelta {
    /// Number of leaves of the later state.
    pub forest: u32,
    /// The nodes needed to get there.
    pub data: Vec<Word>,
}

// OUTSIDE OPERATIONS
// ================================================================================================
/// `PartialMmr::num_leaves`: the number of leaves, which is at most the largest forest size.
#[verifier::external_body]
pub(crate) fn num_leaves(mmr: &PartialMmr) -> (leaves: u32)
    ensures
        leaves == mmr_leaves(*mmr),
        leaves <= max_leaves(),
{
    mmr.num_leaves() as u32
}

/// `PartialMmr::is_tracked`: true if the leaf at `position` is tracked.
#[verifier::external_body]
pub(crate) fn is_tracked(mmr: &PartialMmr, position: u32) -> (found: bool)
    ensures
        found == mmr_tracked(*mmr).contains(position as nat),
{
    mmr.is_tracked(position as usize)
}

/// `PartialMmr::peaks`: the peaks and the number of leaves, of which the number of peaks is the
/// number of trees, so that they can be hashed.
#[verifier::external_body]
pub(crate) fn peaks(mmr: &PartialMmr) -> (peaks: MmrPeaks)
    ensures
        peaks.forest == mmr_leaves(*mmr),
        peaks.peaks@ == mmr_peaks(*mmr),
        peaks_hash(peaks.forest as nat, peaks.peaks@) is Some,
{
    let (forest, peaks) = mmr.peaks().into_parts();
    MmrPeaks {
        forest: forest.num_leaves() as u32,
        peaks: peaks
            .into_iter()
            .map(|peak| Word::from_elements(peak.into_elements().map(|e| e.as_canonical_u64())))
            .collect(),
    }
}

/// `MmrPeaks::hash_peaks`: the hash of the peaks, or `None` where `MmrPeaks::new` finds that their
/// number does not fit the number of leaves. The hash itself is only named.
#[verifier::external_body]
pub(crate) fn hash_peaks(peaks: &MmrPeaks) -> (hash: Option<Word>)
    ensures
        hash == peaks_hash(peaks.forest as nat, peaks.peaks@),
{
    let forest = Forest::new(peaks.forest as usize).ok()?;
    let words = peaks
        .peaks
        .iter()
        .map(|peak| miden_protocol::Word::new(peak.elements().map(Felt::new_unchecked)))
        .collect();
    let peaks = miden_protocol::crypto::merkle::mmr::MmrPeaks::new(forest, words).ok()?;
    Some(Word::from_elements(peaks.hash_peaks().into_elements().map(|e| e.as_canonical_u64())))
}

/// `PartialMmr::apply`: brings the range to the state the delta leads to, and returns the nodes
/// that were added to those kept. The tracked leaves stay, and a delta that does not fit leaves the
/// range as it was. Which delta fits, and what it adds, is only named.
#[verifier::external_body]
pub(crate) fn apply(mmr: &mut PartialMmr, delta: &MmrDelta) -> (added: Result<
    Vec<(InOrderIndex, Word)>,
    MmrError,
>)
    requires
        delta.forest <= max_leaves(),
    ensures
        match delta_applied(model(*old(mmr)), delta.forest as nat, delta.data@) {
            Some((peaks, nodes)) => {
                &&& added is Ok
                &&& added->Ok_0@ == nodes
                &&& model(*final(mmr)) == (MmrModel {
                    leaves: delta.forest as nat,
                    peaks,
                    nodes: with_entries(mmr_nodes(*old(mmr)), nodes),
                    leaves_kept: mmr_tracked(*old(mmr)),
                })
            },
            None => added is Err && model(*final(mmr)) == model(*old(mmr)),
        },
{
    let forest = Forest::new(delta.forest as usize).expect("the forest size is within bounds");
    let data = delta
        .data
        .iter()
        .map(|word| miden_protocol::Word::new(word.elements().map(Felt::new_unchecked)))
        .collect();
    let nodes = mmr.apply(miden_protocol::crypto::merkle::mmr::MmrDelta { forest, data })?;
    Ok(nodes
        .into_iter()
        .map(|(i, w)| {
            (i.inner() as u64, Word::from_elements(w.into_elements().map(|e| e.as_canonical_u64())))
        })
        .collect())
}

/// `PartialMmr::add`: appends a leaf and returns the nodes that were added to those kept. It fails
/// exactly if the range is full, and then leaves it as it was. The new peaks and nodes are only
/// named.
#[verifier::external_body]
pub(crate) fn append(mmr: &mut PartialMmr, leaf: Word, track: bool) -> (added: Result<
    Vec<(InOrderIndex, Word)>,
    MmrError,
>)
    ensures
        added is Err <==> mmr_leaves(*old(mmr)) >= max_leaves(),
        added is Err ==> model(*final(mmr)) == model(*old(mmr)),
        added is Ok ==> ({
            let (peaks, nodes, new) = leaf_appended(model(*old(mmr)), leaf, track);
            &&& added->Ok_0@ == new
            &&& model(*final(mmr)) == (MmrModel {
                leaves: mmr_leaves(*old(mmr)) + 1,
                peaks,
                nodes,
                leaves_kept: if track {
                    mmr_tracked(*old(mmr)).insert(mmr_leaves(*old(mmr)))
                } else {
                    mmr_tracked(*old(mmr))
                },
            })
        }),
{
    let leaf = miden_protocol::Word::new(leaf.elements().map(Felt::new_unchecked));
    let nodes = mmr.add(leaf, track)?;
    Ok(nodes
        .into_iter()
        .map(|(i, w)| {
            (i.inner() as u64, Word::from_elements(w.into_elements().map(|e| e.as_canonical_u64())))
        })
        .collect())
}

/// `PartialMmr::track`: checks the path of a leaf against the peak of its tree, and on success
/// keeps the leaf and the nodes of the path. A path that does not open leaves the range as it was.
/// Which path opens is only named.
#[verifier::external_body]
pub(crate) fn track(mmr: &mut PartialMmr, position: u32, leaf: Word, path: &Vec<Word>) -> (done:
    Result<(), MmrError>)
    requires
        position < mmr_leaves(*old(mmr)),
        tree_covers(mmr_leaves(*old(mmr)), path@.len(), position as nat),
    ensures
        done is Ok <==> path_opens(
            mmr_leaves(*old(mmr)),
            mmr_peaks(*old(mmr)),
            position as nat,
            leaf,
            path@,
        ),
        done is Ok ==> model(*final(mmr)) == after_track(
            model(*old(mmr)),
            position as nat,
            leaf,
            path@,
        ),
        done is Err ==> model(*final(mmr)) == model(*old(mmr)),
{
    let leaf = miden_protocol::Word::new(leaf.elements().map(Felt::new_unchecked));
    let nodes = path
        .iter()
        .map(|word| miden_protocol::Word::new(word.elements().map(Felt::new_unchecked)))
        .collect();
    mmr.track(position as usize, leaf, &MerklePath::new(nodes))
}

/// `PartialMmr::untrack`: stops tracking a leaf and gives up the nodes that no other tracked leaf
/// needs. Which nodes these are is only named.
#[verifier::external_body]
pub(crate) fn untrack(mmr: &mut PartialMmr, position: u32)
    requires
        position < mmr_leaves(*old(mmr)),
    ensures
        mmr_leaves(*final(mmr)) == mmr_leaves(*old(mmr)),
        mmr_peaks(*final(mmr)) == mmr_peaks(*old(mmr)),
        mmr_tracked(*final(mmr)) == mmr_tracked(*old(mmr)).remove(position as nat),
        mmr_nodes(*final(mmr)) == nodes_after_untrack(model(*old(mmr)), position as nat),
{
    mmr.untrack(position as usize);
}

/// `PartialMmr::nodes`: all nodes that are kept, in ascending order of their indices.
#[verifier::external_body]
pub(crate) fn nodes(mmr: &PartialMmr) -> (nodes: Vec<(InOrderIndex, Word)>)
    ensures
        keys_ascending(nodes@),
        forall|index: InOrderIndex|
            #[trigger] has_key(nodes@, index) <==> mmr_nodes(*mmr).contains_key(index),
        forall|i: int|
            0 <= i < nodes@.len() ==> mmr_nodes(*mmr).contains_key((#[trigger] nodes@[i]).0)
                && mmr_nodes(*mmr)[nodes@[i].0] == nodes@[i].1,
{
    mmr.nodes()
        .map(|(i, w)| {
            (i.inner() as u64, Word::from_elements(w.into_elements().map(|e| e.as_canonical_u64())))
        })
        .collect()
}

/// `PartialMmr::clone`: a range that holds the same.
#[verifier::external_body]
pub(crate) fn copy(mmr: &PartialMmr) -> (copied: PartialMmr)
    ensures
        model(copied) == model(*mmr),
{
    mmr.clone()
}

/// `Forest::leaf_to_corresponding_tree`: the depth of the tree that covers a leaf, or `None` if the
/// range has no such leaf.
#[verifier::external_body]
pub(crate) fn tree_depth(leaves: u32, position: u32) -> (depth: Option<u32>)
    requires
        leaves <= max_leaves(),
    ensures
        match depth {
            Some(d) => d < 32 && position < leaves && tree_covers(
                leaves as nat,
                d as nat,
                position as nat,
            ),
            None => position >= leaves,
        },
{
    Forest::new(leaves as usize)
        .expect("the forest size is within bounds")
        .leaf_to_corresponding_tree(position as usize)
}

/// `Rpo256::hash_elements` over field elements made from the numbers. The hash is only named.
#[verifier::external_body]
pub(crate) fn hash_numbers(numbers: &Vec<u32>) -> (hash: Word)
    ensures
        hash == numbers_hash(numbers@),
{
    let elements: Vec<Felt> = numbers.iter().map(|number| Felt::from(*number)).collect();
    let hash = miden_protocol::crypto::hash::rpo::Rpo256::hash_elements(&elements);
    Word::from_elements(hash.into_elements().map(|e| e.as_canonical_u64()))
}

} // verus!
