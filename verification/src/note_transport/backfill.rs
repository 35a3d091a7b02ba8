//! Recovering the history of tags that the client starts to track late.
//!
//! One cursor is shared by all tags and only moves forward, so that notes of a new tag may lie behind
//! it. Such a tag is read from the start, with a cursor of its own.
use vstd::arithmetic::power2::{lemma2_to64, pow2};
use vstd::prelude::*;

use crate::bytes::{
    le_bytes, le_value, length_at, length_bytes, lemma_le_bound, lemma_le_inverse, lemma_le_len,
    lemma_length_inverse, read_le, read_length, write_le, write_length,
};
use crate::collections::OrdMap;
use crate::note_transport::cursor::{not_after, NoteTransportCursor};
use crate::note_transport::relay::SettingUpdate;
use crate::types::{AccountId, NoteDetailsCommitment, NoteTag};

verus! {

/// The setting that holds the tags whose history was fetched.
pub const NOTE_TRANSPORT_COVERED_TAGS_KEY: &'static str = "note_transport_covered_tags";

/// How many new tags are recovered in one sync. The others wait for the next one.
pub const MAX_BACKFILL_TAGS_PER_SYNC: usize = 64;

/// How many pages are read for one tag. A service that never ends is at fault.
pub const MAX_BACKFILL_ITERATIONS: usize = 1_000;

// TAGS
// ================================================================================================
/// Why a tag is tracked.
#[derive(Clone, Copy, Debug, PartialEq, Eq, Structural)]
pub enum NoteTagSource {
    /// The tag is derived from an account.
    Account(AccountId),
    /// The tag is that of an expected note.
    Note(NoteDetailsCommitment),
    /// The tag belongs to a subscription.
    Subscription,
    /// The user asked for the tag.
    User,
}

/// A tag that is tracked.
#[derive(Clone, Copy, Debug, PartialEq, Eq, Structural)]
pub struct NoteTagRecord {
    pub tag: NoteTag,
    pub source: NoteTagSource,
}

/// The tag was asked for, or is derived from an account, so that notes may have been sent to it
/// before. Other tags are registered by receiving notes.
pub open spec fn has_history(record: NoteTagRecord) -> bool {
    record.source is User || record.source is Account
}

/// The tag is among the records that fit.
pub open spec fn is_tag_of(
    records: Seq<NoteTagRecord>,
    fits: spec_fn(NoteTagRecord) -> bool,
    tag: NoteTag,
) -> bool {
    exists|i: int|
        0 <= i < records.len() && fits(#[trigger] records[i]) && records[i].tag == tag
}

/// Returns the tags whose history is recovered.
pub fn backfill_candidate_tags(records: &Vec<NoteTagRecord>) -> (tags: OrdMap<NoteTag, ()>)
    ensures
        forall|tag: NoteTag| #[trigger]
            tags@.contains_key(tag) <==> is_tag_of(
                records@,
                |record: NoteTagRecord| has_history(record),
                tag,
            ),
{
    let ghost fits = |record: NoteTagRecord| has_history(record);
    let mut tags: OrdMap<NoteTag, ()> = OrdMap::new();
    let mut i: usize = 0;
    while i < records.len()
        invariant
            i <= records.len(),
            fits == (|record: NoteTagRecord| has_history(record)),
            forall|tag: NoteTag| #[trigger]
                tags@.contains_key(tag) <==> is_tag_of(records@.take(i as int), fits, tag),
        decreases records.len() - i,
    {
        let record = records[i];
        let ghost before = tags@;
        let included = matches!(record.source, NoteTagSource::User | NoteTagSource::Account(_));
        if included {
            tags.insert(record.tag, ());
        }
        proof {
            lemma_tags_next(records@, fits, i as int, before, tags@);
        }
        i += 1;
    }
    assert(records@.take(i as int) =~= records@);
    tags
}

/// Returns the tags that are derived from accounts.
pub fn tracked_account_tags(records: &Vec<NoteTagRecord>) -> (tags: OrdMap<NoteTag, ()>)
    ensures
        forall|tag: NoteTag| #[trigger]
            tags@.contains_key(tag) <==> is_tag_of(
                records@,
                |record: NoteTagRecord| record.source is Account,
                tag,
            ),
{
    let ghost fits = |record: NoteTagRecord| record.source is Account;
    let mut tags: OrdMap<NoteTag, ()> = OrdMap::new();
    let mut i: usize = 0;
    while i < records.len()
        invariant
            i <= records.len(),
            fits == (|record: NoteTagRecord| record.source is Account),
            forall|tag: NoteTag| #[trigger]
                tags@.contains_key(tag) <==> is_tag_of(records@.take(i as int), fits, tag),
        decreases records.len() - i,
    {
        let record = records[i];
        let ghost before = tags@;
        let included = matches!(record.source, NoteTagSource::Account(_));
        if included {
            tags.insert(record.tag, ());
        }
        proof {
            lemma_tags_next(records@, fits, i as int, before, tags@);
        }
        i += 1;
    }
    assert(records@.take(i as int) =~= records@);
    tags
}

/// One more record adds its tag, if it fits.
proof fn lemma_tags_next(
    records: Seq<NoteTagRecord>,
    fits: spec_fn(NoteTagRecord) -> bool,
    i: int,
    before: Map<NoteTag, ()>,
    after: Map<NoteTag, ()>,
)
    requires
        0 <= i < records.len(),
        forall|tag: NoteTag| #[trigger]
            before.contains_key(tag) <==> is_tag_of(records.take(i), fits, tag),
        after == if fits(records[i]) {
            before.insert(records[i].tag, ())
        } else {
            before
        },
    ensures
        forall|tag: NoteTag| #[trigger]
            after.contains_key(tag) <==> is_tag_of(records.take(i + 1), fits, tag),
{
    let shorter = records.take(i);
    let longer = records.take(i + 1);
    assert forall|tag: NoteTag| #[trigger]
        after.contains_key(tag) <==> is_tag_of(longer, fits, tag) by {
        assert(before.contains_key(tag) <==> is_tag_of(shorter, fits, tag));
        if is_tag_of(shorter, fits, tag) {
            let k = choose|k: int|
                0 <= k < shorter.len() && fits(#[trigger] shorter[k]) && shorter[k].tag == tag;
            assert(longer[k] == shorter[k]);
        }
        assert(longer[i] == records[i]);
        if is_tag_of(longer, fits, tag) {
            let k = choose|k: int|
                0 <= k < longer.len() && fits(#[trigger] longer[k]) && longer[k].tag == tag;
            if k < i {
                assert(shorter[k] == longer[k]);
            }
        }
    }
}

// PLAN
// ================================================================================================
/// What is to be recovered.
#[derive(Debug)]
pub struct BackfillPlan {
    /// The tags whose history was recovered, and that are still tracked.
    pub covered: OrdMap<NoteTag, ()>,
    /// Tags that are no longer tracked were left out.
    pub pruned: bool,
    /// The tags to be recovered now.
    pub new_tags: Vec<NoteTag>,
}

/// The first `limit` of the tags that are not covered, in order.
pub open spec fn uncovered(
    candidates: Seq<(NoteTag, ())>,
    covered: Map<NoteTag, ()>,
    limit: nat,
) -> Seq<NoteTag>
    decreases candidates.len(),
{
    if candidates.len() == 0 {
        Seq::empty()
    } else {
        let rest = uncovered(candidates.drop_last(), covered, limit);
        if covered.contains_key(candidates.last().0) || rest.len() >= limit {
            rest
        } else {
            rest.push(candidates.last().0)
        }
    }
}

/// Plans what is to be recovered. A tag that is no longer tracked is not covered any more, so that its
/// history is recovered again if it comes back.
pub fn plan_backfill(candidates: &OrdMap<NoteTag, ()>, loaded: &OrdMap<NoteTag, ()>) -> (plan:
    BackfillPlan)
    ensures
        plan.covered@.dom() == loaded@.dom().intersect(candidates@.dom()),
        plan.pruned == !loaded@.dom().subset_of(candidates@.dom()),
        plan.new_tags@ == uncovered(
            candidates.listing(),
            loaded@,
            MAX_BACKFILL_TAGS_PER_SYNC as nat,
        ),
{
    let ghost all = loaded.listing();
    let mut covered: OrdMap<NoteTag, ()> = OrdMap::new();
    let mut pruned = false;
    let mut i: usize = 0;
    while i < loaded.len()
        invariant
            i <= loaded.listing().len(),
            all == loaded.listing(),
            forall|tag: NoteTag| #[trigger]
                covered@.contains_key(tag) <==> candidates@.contains_key(tag) && exists|k: int|
                    0 <= k < i && (#[trigger] all[k]).0 == tag,
            pruned <==> exists|k: int|
                0 <= k < i && !candidates@.contains_key((#[trigger] all[k]).0),
        decreases loaded.listing().len() - i,
    {
        let tag: NoteTag = loaded.entries()[i].0;
        let ghost before = covered@;
        let known = candidates.contains(&tag);
        if known {
            covered.insert(tag, ());
        } else {
            pruned = true;
        }
        proof {
            assert(all[i as int].0 == tag);
            assert forall|t: NoteTag| #[trigger]
                covered@.contains_key(t) <==> candidates@.contains_key(t) && exists|k: int|
                    0 <= k < i + 1 && (#[trigger] all[k]).0 == t by {
                assert(before.contains_key(t) <==> candidates@.contains_key(t) && exists|k: int|
                    0 <= k < i && (#[trigger] all[k]).0 == t);
            }
        }
        i += 1;
    }
    proof {
        assert(covered@.dom() =~= loaded@.dom().intersect(candidates@.dom())) by {
            assert forall|t: NoteTag| #[trigger]
                covered@.dom().contains(t) <==> loaded@.dom().intersect(
                    candidates@.dom(),
                ).contains(t) by {
                assert(covered@.contains_key(t) <==> candidates@.contains_key(t) && exists|k: int|
                    0 <= k < all.len() && (#[trigger] all[k]).0 == t);
            }
        }
        assert forall|t: NoteTag| #[trigger] loaded@.dom().contains(t) implies exists|k: int|
            0 <= k < all.len() && (#[trigger] all[k]).0 == t by {}
        if !pruned {
            assert forall|t: NoteTag| #[trigger] loaded@.dom().contains(t) implies candidates@.dom().contains(
                t,
            ) by {
                let k = choose|k: int| 0 <= k < all.len() && (#[trigger] all[k]).0 == t;
                assert(candidates@.contains_key(all[k].0));
            }
        } else {
            let k = choose|k: int|
                0 <= k < all.len() && !candidates@.contains_key((#[trigger] all[k]).0);
            assert(loaded@.dom().contains(all[k].0));
            assert(!candidates@.dom().contains(all[k].0));
        }
    }

    let ghost listed = candidates.listing();
    let mut new_tags: Vec<NoteTag> = Vec::new();
    let mut i: usize = 0;
    while i < candidates.len()
        invariant
            i <= candidates.listing().len(),
            listed == candidates.listing(),
            new_tags@ == uncovered(
                listed.take(i as int),
                loaded@,
                MAX_BACKFILL_TAGS_PER_SYNC as nat,
            ),
        decreases candidates.listing().len() - i,
    {
        let tag: NoteTag = candidates.entries()[i].0;
        proof {
            assert(listed.take(i + 1).drop_last() =~= listed.take(i as int));
            assert(listed.take(i + 1).last() == listed[i as int]);
        }
        if !loaded.contains(&tag) && new_tags.len() < MAX_BACKFILL_TAGS_PER_SYNC {
            new_tags.push(tag);
        }
        i += 1;
    }
    assert(listed.take(i as int) =~= listed);
    BackfillPlan { covered, pruned, new_tags }
}

impl BackfillPlan {
    /// Returns the tags that are covered after the new ones were recovered; nothing if that is what
    /// is stored already.
    pub fn covered_after(self) -> (covered: Option<OrdMap<NoteTag, ()>>)
        ensures
            match covered {
                Some(covered) => {
                    &&& self.pruned || self.new_tags@.len() > 0
                    &&& covered@.dom() == self.covered@.dom().union(self.new_tags@.to_set())
                },
                None => !self.pruned && self.new_tags@.len() == 0,
            },
    {
        if !self.pruned && self.new_tags.len() == 0 {
            return None;
        }
        let ghost before = self.covered@.dom();
        let new_tags = self.new_tags;
        let mut covered = self.covered;
        let mut i: usize = 0;
        assert(before.union(new_tags@.take(0).to_set()) =~= before);
        while i < new_tags.len()
            invariant
                i <= new_tags.len(),
                covered@.dom() == before.union(new_tags@.take(i as int).to_set()),
            decreases new_tags.len() - i,
        {
            covered.insert(new_tags[i], ());
            proof {
                let shorter = new_tags@.take(i as int);
                let longer = new_tags@.take(i + 1);
                assert(longer =~= shorter.push(new_tags@[i as int]));
                assert forall|t: NoteTag|
                    longer.to_set().contains(t) <==> shorter.to_set().contains(t) || t
                        == new_tags@[i as int] by {
                    if shorter.contains(t) {
                        let k = choose|k: int| 0 <= k < shorter.len() && shorter[k] == t;
                        assert(longer[k] == t);
                    }
                    assert(longer[i as int] == new_tags@[i as int]);
                }
                assert(covered@.dom() =~= before.union(longer.to_set()));
            }
            i += 1;
        }
        assert(new_tags@.take(i as int) =~= new_tags@);
        Some(covered)
    }
}

/// What is recovered in one sync is limited, was not covered, and is tracked.
pub proof fn law_backfill_is_limited(
    candidates: Seq<(NoteTag, ())>,
    covered: Map<NoteTag, ()>,
    limit: nat,
)
    ensures
        uncovered(candidates, covered, limit).len() <= limit,
        forall|i: int|
            0 <= i < uncovered(candidates, covered, limit).len() ==> {
                let tag = #[trigger] uncovered(candidates, covered, limit)[i];
                !covered.contains_key(tag) && exists|k: int|
                    0 <= k < candidates.len() && (#[trigger] candidates[k]).0 == tag
            },
    decreases candidates.len(),
{
    if candidates.len() > 0 {
        let rest = candidates.drop_last();
        law_backfill_is_limited(rest, covered, limit);
        assert forall|i: int| 0 <= i < uncovered(candidates, covered, limit).len() implies {
            let tag = #[trigger] uncovered(candidates, covered, limit)[i];
            !covered.contains_key(tag) && exists|k: int|
                0 <= k < candidates.len() && (#[trigger] candidates[k]).0 == tag
        } by {
            let tag = uncovered(candidates, covered, limit)[i];
            if i < uncovered(rest, covered, limit).len() {
                assert(tag == uncovered(rest, covered, limit)[i]);
                let k = choose|k: int| 0 <= k < rest.len() && (#[trigger] rest[k]).0 == tag;
                assert(candidates[k].0 == tag);
            } else {
                assert(candidates[candidates.len() - 1].0 == tag);
            }
        }
    }
}

/// The tag is one of those that are to be covered.
pub open spec fn is_candidate(candidates: Seq<(NoteTag, ())>, tag: NoteTag) -> bool {
    exists|k: int| 0 <= k < candidates.len() && (#[trigger] candidates[k]).0 == tag
}

/// The tags that are covered after a sync.
pub open spec fn after_sync(
    candidates: Seq<(NoteTag, ())>,
    covered: Map<NoteTag, ()>,
    limit: nat,
) -> Map<NoteTag, ()> {
    Map::new(
        |tag: NoteTag|
            covered.contains_key(tag) && is_candidate(candidates, tag) || uncovered(
                candidates,
                covered,
                limit,
            ).contains(tag),
        |tag: NoteTag| (),
    )
}

/// The tags that are covered after several syncs.
pub open spec fn after_syncs(
    candidates: Seq<(NoteTag, ())>,
    covered: Map<NoteTag, ()>,
    limit: nat,
    syncs: nat,
) -> Map<NoteTag, ()>
    decreases syncs,
{
    if syncs == 0 {
        covered
    } else {
        after_syncs(
            candidates,
            after_sync(candidates, covered, limit),
            limit,
            (syncs - 1) as nat,
        )
    }
}

/// How many tags are not covered.
pub open spec fn missing(candidates: Seq<(NoteTag, ())>, covered: Map<NoteTag, ()>) -> nat
    decreases candidates.len(),
{
    if candidates.len() == 0 {
        0
    } else {
        missing(candidates.drop_last(), covered) + if covered.contains_key(candidates.last().0) {
            0nat
        } else {
            1nat
        }
    }
}

/// What is recovered is as much as the limit allows, and is not missing any more.
proof fn lemma_recovered(
    candidates: Seq<(NoteTag, ())>,
    covered: Map<NoteTag, ()>,
    limit: nat,
    after: Map<NoteTag, ()>,
)
    requires
        forall|k: int|
            0 <= k < candidates.len() && (covered.contains_key((#[trigger] candidates[k]).0)
                || uncovered(candidates, covered, limit).contains(candidates[k].0))
                ==> after.contains_key(candidates[k].0),
    ensures
        missing(candidates, covered) <= limit ==> uncovered(candidates, covered, limit).len()
            == missing(candidates, covered),
        missing(candidates, covered) > limit ==> uncovered(candidates, covered, limit).len()
            == limit,
        missing(candidates, after) + uncovered(candidates, covered, limit).len() <= missing(
            candidates,
            covered,
        ),
    decreases candidates.len(),
{
    if candidates.len() > 0 {
        let rest = candidates.drop_last();
        let last = candidates.last().0;
        let now = uncovered(candidates, covered, limit);
        let earlier = uncovered(rest, covered, limit);
        assert forall|k: int|
            0 <= k < rest.len() && (covered.contains_key((#[trigger] rest[k]).0)
                || earlier.contains(rest[k].0)) implies after.contains_key(rest[k].0) by {
            assert(rest[k] == candidates[k]);
            if earlier.contains(rest[k].0) {
                let i = choose|i: int| 0 <= i < earlier.len() && earlier[i] == rest[k].0;
                assert(now[i] == earlier[i]);
                assert(now.contains(candidates[k].0));
            }
        }
        lemma_recovered(rest, covered, limit, after);
        assert(candidates[candidates.len() - 1].0 == last);
        if !covered.contains_key(last) && earlier.len() < limit {
            assert(now[earlier.len() as int] == last);
            assert(now.contains(candidates[candidates.len() - 1].0));
            assert(after.contains_key(last));
        }
        if covered.contains_key(last) {
            assert(after.contains_key(candidates[candidates.len() - 1].0));
        }
    }
}

/// If none is missing, every tag is covered.
proof fn lemma_none_missing(candidates: Seq<(NoteTag, ())>, covered: Map<NoteTag, ()>, k: int)
    requires
        missing(candidates, covered) == 0,
        0 <= k < candidates.len(),
    ensures
        covered.contains_key(candidates[k].0),
    decreases candidates.len(),
{
    if k < candidates.len() - 1 {
        assert(candidates.drop_last()[k] == candidates[k]);
        lemma_none_missing(candidates.drop_last(), covered, k);
    }
}

/// Tags that have to wait are recovered by later syncs: after enough of them every tag is covered.
pub proof fn law_every_tag_is_recovered(
    candidates: Seq<(NoteTag, ())>,
    covered: Map<NoteTag, ()>,
    limit: nat,
    syncs: nat,
    k: int,
)
    requires
        missing(candidates, covered) <= syncs * limit,
        0 <= k < candidates.len(),
    ensures
        after_syncs(candidates, covered, limit, syncs).contains_key(candidates[k].0),
    decreases syncs,
{
    if syncs == 0 {
        assert(syncs * limit == 0) by (nonlinear_arith)
            requires
                syncs == 0,
        ;
        lemma_none_missing(candidates, covered, k);
    } else {
        let after = after_sync(candidates, covered, limit);
        assert forall|k: int|
            0 <= k < candidates.len() && (covered.contains_key((#[trigger] candidates[k]).0)
                || uncovered(candidates, covered, limit).contains(
                candidates[k].0,
            )) implies after.contains_key(candidates[k].0) by {
            assert(is_candidate(candidates, candidates[k].0));
        }
        lemma_recovered(candidates, covered, limit, after);
        assert(syncs * limit == (syncs - 1) * limit + limit) by (nonlinear_arith)
            requires
                syncs > 0,
        ;
        law_every_tag_is_recovered(candidates, after, limit, (syncs - 1) as nat, k);
    }
}

// RUN
// ================================================================================================
/// Where the recovery of one tag stands.
#[derive(Clone, Copy, Debug, PartialEq, Eq, Structural)]
pub struct BackfillRun {
    /// The cursor from which the next page is read.
    pub cursor: NoteTransportCursor,
    /// How many pages were read.
    pub pages: usize,
}

/// Whether another page is needed.
#[derive(Clone, Copy, Debug, PartialEq, Eq, Structural)]
pub enum BackfillStep {
    Continue,
    Done,
    /// The service never ends.
    DidNotTerminate,
}

impl BackfillRun {
    /// Not more pages were read than are allowed.
    pub open spec fn wf(self) -> bool {
        self.pages < MAX_BACKFILL_ITERATIONS
    }

    /// Starts at the first note.
    pub fn new() -> (run: Self)
        ensures
            run.wf(),
            run.cursor.position is None,
            run.pages == 0,
    {
        BackfillRun { cursor: NoteTransportCursor::init(), pages: 0 }
    }

    /// Takes note of a page, by the cursor that came with it. The tag is done if the cursor did not
    /// move forward; some services return the first cursor with an empty page.
    pub fn advance(&mut self, new_cursor: NoteTransportCursor) -> (step: BackfillStep)
        requires
            old(self).wf(),
        ensures
            if not_after(new_cursor, old(self).cursor) {
                step is Done && *final(self) == *old(self)
            } else if old(self).pages + 1 >= MAX_BACKFILL_ITERATIONS {
                step is DidNotTerminate && *final(self) == *old(self)
            } else {
                &&& step is Continue
                &&& *final(self) == (BackfillRun {
                    cursor: new_cursor,
                    pages: (old(self).pages + 1) as usize,
                })
            },
            final(self).wf(),
    {
        if new_cursor.is_not_after(&self.cursor) {
            return BackfillStep::Done;
        }
        if self.pages + 1 >= MAX_BACKFILL_ITERATIONS {
            return BackfillStep::DidNotTerminate;
        }
        self.cursor = new_cursor;
        self.pages = self.pages + 1;
        BackfillStep::Continue
    }
}

// COVERED TAGS
// ================================================================================================
/// The bytes of tags, one after the other.
pub open spec fn tag_bytes(tags: Seq<NoteTag>) -> Seq<u8>
    decreases tags.len(),
{
    if tags.len() == 0 {
        Seq::empty()
    } else {
        le_bytes(tags[0] as nat, 4) + tag_bytes(tags.skip(1))
    }
}

/// The bytes of a set of tags, given in ascending order: how many there are, and the tags.
pub open spec fn covered_bytes(tags: Seq<NoteTag>) -> Seq<u8> {
    length_bytes(tags.len()) + tag_bytes(tags)
}

/// As many tags as asked for, from the start of bytes.
pub open spec fn tags_at(bytes: Seq<u8>, count: nat) -> Option<Seq<NoteTag>>
    decreases count,
{
    if count == 0 {
        Some(Seq::empty())
    } else if bytes.len() < 4 {
        None
    } else {
        match tags_at(bytes.skip(4), (count - 1) as nat) {
            Some(others) => Some(seq![le_value(bytes.take(4)) as u32] + others),
            None => None,
        }
    }
}

/// The tags that bytes hold.
pub open spec fn covered_at(bytes: Seq<u8>) -> Option<Seq<NoteTag>> {
    match length_at(bytes) {
        None => None,
        Some((count, size)) => if count <= usize::MAX {
            tags_at(bytes.skip(size as int), count)
        } else {
            None
        },
    }
}

/// Tags are read back from their bytes.
proof fn lemma_tags_inverse(tags: Seq<NoteTag>)
    ensures
        tags_at(tag_bytes(tags), tags.len()) == Some(tags),
    decreases tags.len(),
{
    if tags.len() == 0 {
        assert(tags =~= Seq::<NoteTag>::empty());
    } else {
        let first = le_bytes(tags[0] as nat, 4);
        lemma_tags_inverse(tags.skip(1));
        lemma2_to64();
        lemma_le_len(tags[0] as nat, 4);
        lemma_le_inverse(tags[0] as nat, 4);
        assert(pow2(32) == 0x1_0000_0000);
        assert(tag_bytes(tags).skip(4) =~= tag_bytes(tags.skip(1)));
        assert(tag_bytes(tags).take(4) =~= first);
        assert(seq![tags[0]] + tags.skip(1) =~= tags);
    }
}

/// The covered tags are read back from their bytes.
pub proof fn law_covered_tags_are_read_back(tags: Seq<NoteTag>)
    requires
        tags.len() <= usize::MAX,
    ensures
        covered_at(covered_bytes(tags)) == Some(tags),
{
    lemma_length_inverse(tags.len(), tag_bytes(tags));
    assert(covered_bytes(tags).skip(length_bytes(tags.len()).len() as int) =~= tag_bytes(tags));
    lemma_tags_inverse(tags);
}

/// Returns how the covered tags are stored. An empty set is not stored at all.
pub fn save_covered_tags(tags: &OrdMap<NoteTag, ()>) -> (update: SettingUpdate)
    ensures
        match update {
            SettingUpdate::Remove => tags.listing().len() == 0,
            SettingUpdate::Store(bytes) => tags.listing().len() > 0 && bytes@ == covered_bytes(
                tags.listing().map_values(|entry: (NoteTag, ())| entry.0),
            ),
        },
{
    if tags.len() == 0 {
        return SettingUpdate::Remove;
    }
    let ghost all = tags.listing().map_values(|entry: (NoteTag, ())| entry.0);
    let mut bytes: Vec<u8> = Vec::new();
    write_length(&mut bytes, tags.len());
    assert(bytes@ =~= length_bytes(all.len()));
    let mut i: usize = 0;
    assert(all.skip(0) =~= all);
    while i < tags.len()
        invariant
            i <= tags.listing().len(),
            all == tags.listing().map_values(|entry: (NoteTag, ())| entry.0),
            bytes@ + tag_bytes(all.skip(i as int)) == covered_bytes(all),
        decreases tags.listing().len() - i,
    {
        let ghost before = bytes@;
        let tag: NoteTag = tags.entries()[i].0;
        write_le(&mut bytes, tag as u64, 4);
        proof {
            assert(all.skip(i as int)[0] == tag);
            assert(all.skip(i as int).skip(1) =~= all.skip(i + 1));
            let rest = tag_bytes(all.skip(i + 1));
            assert(before + (le_bytes(tag as nat, 4) + rest) =~= bytes@ + rest);
        }
        i += 1;
    }
    assert(all.skip(i as int) =~= Seq::<NoteTag>::empty());
    assert(bytes@ + Seq::<u8>::empty() =~= bytes@);
    SettingUpdate::Store(bytes)
}

/// Returns the stored covered tags, and whether the setting is to be removed because it cannot be
/// read. Without them every tag is recovered once more, which does no harm.
pub fn load_covered_tags(stored: Option<Vec<u8>>) -> (loaded: (OrdMap<NoteTag, ()>, bool))
    ensures
        match stored {
            None => loaded.0@ == Map::<NoteTag, ()>::empty() && !loaded.1,
            Some(bytes) => match covered_at(bytes@) {
                Some(tags) => loaded.0@.dom() == tags.to_set() && !loaded.1,
                None => loaded.0@ == Map::<NoteTag, ()>::empty() && loaded.1,
            },
        },
{
    let bytes = match stored {
        Some(bytes) => bytes,
        None => {
            return (OrdMap::new(), false);
        },
    };
    assert(bytes@.skip(0) =~= bytes@);
    let (count, size) = match read_length(&bytes, 0) {
        Some(read) => read,
        None => {
            return (OrdMap::new(), true);
        },
    };
    let ghost behind = bytes@.skip(size as int);
    assert(length_at(bytes@) == Some((count as nat, size as nat))) by {
        let found = length_at(bytes@)->0;
        assert(bytes.len() <= usize::MAX);
        assert(found.0 == count && found.1 == size);
    }
    let mut tags: OrdMap<NoteTag, ()> = OrdMap::new();
    let ghost mut read: Seq<NoteTag> = Seq::empty();
    let mut at: usize = size;
    let mut i: usize = 0;
    proof {
        assert(tags@.dom() =~= read.to_set());
        if let Some(found) = tags_at(behind, count as nat) {
            assert(read + found =~= found);
        }
    }
    while i < count
        invariant
            i <= count,
            at <= bytes@.len(),
            stored == Some(bytes),
            tags@.dom() == read.to_set(),
            match tags_at(bytes@.skip(at as int), (count - i) as nat) {
                Some(found) => tags_at(behind, count as nat) == Some(read + found),
                None => tags_at(behind, count as nat) is None,
            },
            covered_at(bytes@) == tags_at(behind, count as nat),
        decreases count - i,
    {
        let ghost now = bytes@.skip(at as int);
        if bytes.len() - at < 4 {
            return (OrdMap::new(), true);
        }
        proof {
            assert(bytes@.subrange(at as int, at + 4) =~= now.take(4));
            lemma_le_bound(now.take(4));
            lemma2_to64();
        }
        let tag: NoteTag = match read_le(&bytes, at, 4) {
            Some(tag) => tag as u32,
            None => {
                return (OrdMap::new(), true);
            },
        };
        let ghost before = tags@.dom();
        tags.insert(tag, ());
        proof {
            assert(now.skip(4) =~= bytes@.skip(at + 4));
            if let Some(found) = tags_at(bytes@.skip(at + 4), (count - i - 1) as nat) {
                assert(read + (seq![tag] + found) =~= read.push(tag) + found);
            }
            let longer = read.push(tag);
            assert forall|t: NoteTag|
                longer.to_set().contains(t) <==> read.to_set().contains(t) || t == tag by {
                if read.contains(t) {
                    let k = choose|k: int| 0 <= k < read.len() && read[k] == t;
                    assert(longer[k] == t);
                }
                assert(longer[read.len() as int] == tag);
            }
            assert(tags@.dom() =~= longer.to_set());
            read = longer;
        }
        at = at + 4;
        i += 1;
    }
    assert(read + Seq::<NoteTag>::empty() =~= read);
    (tags, false)
}

} // verus!
