//! What the steps of sending and receiving private notes return, stated of their calls.
use vstd::prelude::*;

use crate::collections::{law_lists_set, OrdMap};
use crate::note::import::NoteFile;
use crate::note_transport::backfill::{
    backfill_candidate_tags, law_covered_tags_are_read_back,
    load_covered_tags, plan_backfill, save_covered_tags, tracked_account_tags, BackfillPlan,
    BackfillRun, NoteTagRecord,
};
use crate::note_transport::cursor::{law_cursor_is_read_back, NoteTransportCursor};
use crate::note_transport::fetch::{
    imported_ids, law_note_info_is_read_back, note_files, notes_to_screen, NoteInfo, ReceivedNote,
};
use crate::note_transport::relay::{
    entries_wf, law_outbox_is_read_back, load_outbox, proof_block_num, proof_read_of, save_outbox,
    views, RelayOutboxEntry, SettingUpdate,
};
use crate::note_transport::transport_laws::{
    law_has_history, law_note_is_looked_for, law_uncovered_tags_are_recovered, law_written_ids,
};
use crate::note_transport::wire::is_header;
use crate::types::{BlockNumber, NoteDetailsCommitment, NoteId, NoteTag};

verus! {

// STORAGE
// ================================================================================================
/// An outbox that was saved is loaded as it was; an empty one leaves nothing behind.
pub proof fn law_saved_outbox_is_loaded(
    entries: Vec<RelayOutboxEntry>,
    update: SettingUpdate,
    stored: Option<Vec<u8>>,
    loaded: (Vec<RelayOutboxEntry>, bool),
)
    requires
        entries_wf(views(entries@)),
        entries@.len() <= usize::MAX,
        call_ensures(save_outbox, (&entries,), update),
        stored == match update {
            SettingUpdate::Remove => None,
            SettingUpdate::Store(bytes) => Some(bytes),
        },
        call_ensures(load_outbox, (stored,), loaded),
    ensures
        views(loaded.0@) == views(entries@),
        !loaded.1,
{
    if update is Store {
        law_outbox_is_read_back(views(entries@));
    } else {
        assert(views(loaded.0@) =~= views(entries@));
    }
}

/// Covered tags that were saved are loaded as they were; none leave nothing behind.
pub proof fn law_saved_tags_are_loaded(
    tags: OrdMap<NoteTag, ()>,
    update: SettingUpdate,
    stored: Option<Vec<u8>>,
    loaded: (OrdMap<NoteTag, ()>, bool),
    tag: NoteTag,
)
    requires
        tags.listing().len() <= usize::MAX,
        call_ensures(save_covered_tags, (&tags,), update),
        stored == match update {
            SettingUpdate::Remove => None,
            SettingUpdate::Store(bytes) => Some(bytes),
        },
        call_ensures(load_covered_tags, (stored,), loaded),
    ensures
        loaded.0@.contains_key(tag) == tags@.contains_key(tag),
        !loaded.1,
{
    let listed = tags.listing().map_values(|entry: (NoteTag, ())| entry.0);
    if update is Store {
        law_covered_tags_are_read_back(listed);
        assert(loaded.0@.dom().contains(tag) == listed.contains(tag));
        if listed.contains(tag) {
            let k = choose|k: int| 0 <= k < listed.len() && listed[k] == tag;
            assert(tags.listing()[k].0 == tag);
        }
        if tags@.contains_key(tag) {
            let k = choose|k: int|
                0 <= k < tags.listing().len() && (#[trigger] tags.listing()[k]).0 == tag;
            assert(listed[k] == tag);
        }
    }
}

/// A cursor that was written is read as it was.
pub proof fn law_written_cursor_is_read(
    cursor: NoteTransportCursor,
    bytes: Vec<u8>,
    read: Option<NoteTransportCursor>,
)
    requires
        call_ensures(NoteTransportCursor::to_bytes, (&cursor,), bytes),
        call_ensures(NoteTransportCursor::read_from_bytes, (&bytes,), read),
    ensures
        read == Some(cursor),
{
    law_cursor_is_read_back(cursor);
}

/// A note that was written is read as it was.
pub proof fn law_written_note_is_read(
    info: NoteInfo,
    header_bytes: Vec<u8>,
    bytes: Vec<u8>,
    read: Option<NoteInfo>,
)
    requires
        is_header(header_bytes@, info.header),
        info.details_bytes@.len() <= usize::MAX,
        call_ensures(NoteInfo::to_bytes, (&info, &header_bytes), bytes),
        call_ensures(NoteInfo::read_from_bytes, (&bytes,), read),
    ensures
        read is Some,
        read->0.header == info.header,
        read->0.details_bytes@ == info.details_bytes@,
        read->0.block_hint == info.block_hint,
{
    law_note_info_is_read_back(
        header_bytes@,
        info.header,
        info.details_bytes@,
        info.block_hint,
        Seq::empty(),
    );
    assert(bytes@ + Seq::<u8>::empty() =~= bytes@);
}

/// The block that a service is told is that of the proof.
pub proof fn law_proof_block(proof_bytes: Vec<u8>, block_num: Option<BlockNumber>)
    requires
        call_ensures(proof_block_num, (&proof_bytes,), block_num),
    ensures
        proof_read_of(proof_bytes@) is None <==> block_num is None,
        proof_read_of(proof_bytes@) matches Some((own, _)) ==> block_num == Some(own),
{
}

// RECEIVING
// ================================================================================================
/// The notes that are screened are those under tags of accounts, all of them, in order.
pub proof fn law_screened_notes(
    notes: Vec<ReceivedNote>,
    account_tags: OrdMap<NoteTag, ()>,
    positions: Vec<usize>,
    i: int,
)
    requires
        call_ensures(notes_to_screen, (&notes, &account_tags), positions),
    ensures
        0 <= i < notes@.len() && i <= usize::MAX ==> (account_tags@.contains_key(notes@[i].tag)
            <==> positions@.contains(i as usize)),
        forall|j: int, k: int|
            0 <= j < k < positions@.len() ==> (#[trigger] positions@[j]) < (
            #[trigger] positions@[k]),
{
    if 0 <= i < notes@.len() && i <= usize::MAX && positions@.contains(i as usize) {
        let k = choose|k: int| 0 <= k < positions@.len() && positions@[k] == i as usize;
        assert(account_tags@.contains_key(notes@[positions@[k] as int].tag));
    }
}

/// Every note is imported by its details and under its tag: from the block that the sender named, or
/// from twenty blocks back.
pub proof fn law_files_of_notes(
    notes: Vec<ReceivedNote>,
    sync_height: BlockNumber,
    files: Vec<NoteFile>,
    i: int,
)
    requires
        call_ensures(note_files, (&notes, sync_height), files),
        0 <= i < notes@.len(),
    ensures
        files@.len() == notes@.len(),
        files@[i] matches NoteFile::ExpectedNote { details_commitment, after_block_num, tag }
            && details_commitment == notes@[i].details_commitment && tag == notes@[i].tag && (
        notes@[i].block_hint matches Some(block_num) ==> after_block_num == block_num) && (
        notes@[i].block_hint is None ==> after_block_num + 20 == if sync_height >= 20 {
            sync_height as int
        } else {
            20
        }),
{
    law_note_is_looked_for(notes@[i], sync_height);
}

/// The ids that are returned are those of the notes that were written, each of them once.
pub proof fn law_imported_ids(
    written: Vec<NoteDetailsCommitment>,
    id_by_commitment: OrdMap<NoteDetailsCommitment, NoteId>,
    ids: Vec<NoteId>,
    i: int,
)
    requires
        call_ensures(imported_ids, (&written, &id_by_commitment), ids),
    ensures
        0 <= i < written@.len() && id_by_commitment@.contains_key(written@[i]) ==> ids@.contains(
            id_by_commitment@[written@[i]],
        ),
        0 <= i < ids@.len() ==> exists|k: int|
            0 <= k < written@.len() && id_by_commitment@.contains_key(#[trigger] written@[k])
                && id_by_commitment@[written@[k]] == ids@[i],
        ids@.no_duplicates(),
{
    let set = crate::note_transport::fetch::written_ids(written@, id_by_commitment@);
    if 0 <= i < written@.len() && id_by_commitment@.contains_key(written@[i]) {
        let id = id_by_commitment@[written@[i]];
        law_written_ids(written@, id_by_commitment@, id, i);
        assert(ids@.contains(id) <==> set.contains(id));
    }
    if 0 <= i < ids@.len() {
        assert(ids@.contains(ids@[i]));
        law_written_ids(written@, id_by_commitment@, ids@[i], 0);
        law_lists_set(ids@, set, ids@[i]);
    }
    assert forall|a: int, b: int|
        0 <= a < ids@.len() && 0 <= b < ids@.len() && a != b implies ids@[a] != ids@[b] by {
        law_lists_set(ids@, set, ids@[a]);
    }
}

// RECOVERING
// ================================================================================================
/// The history of a tag is recovered if the user asked for the tag or it is that of an account; notes are
/// screened for the tags of accounts only.
pub proof fn law_candidate_tags(
    records: Vec<NoteTagRecord>,
    candidates: OrdMap<NoteTag, ()>,
    account_tags: OrdMap<NoteTag, ()>,
    tag: NoteTag,
)
    requires
        call_ensures(backfill_candidate_tags, (&records,), candidates),
        call_ensures(tracked_account_tags, (&records,), account_tags),
    ensures
        candidates@.contains_key(tag) <==> exists|i: int|
            0 <= i < records@.len() && (#[trigger] records@[i]).tag == tag && (
            records@[i].source is User || records@[i].source is Account),
        account_tags@.contains_key(tag) <==> exists|i: int|
            0 <= i < records@.len() && (#[trigger] records@[i]).tag == tag
                && records@[i].source is Account,
{
    if candidates@.contains_key(tag) {
        let i = choose|i: int|
            0 <= i < records@.len() && crate::note_transport::backfill::has_history(
                #[trigger] records@[i],
            ) && records@[i].tag == tag;
        law_has_history(records@[i]);
        assert(records@[i].tag == tag);
    }
    assert forall|i: int|
        0 <= i < records@.len() && (#[trigger] records@[i]).tag == tag && (records@[i].source is User
            || records@[i].source is Account) implies candidates@.contains_key(tag) by {
        law_has_history(records@[i]);
        let fits = |record: NoteTagRecord| crate::note_transport::backfill::has_history(record);
        assert(fits(records@[i]));
        assert(crate::note_transport::backfill::is_tag_of(records@, fits, tag));
    }
    assert forall|i: int|
        0 <= i < records@.len() && (#[trigger] records@[i]).tag == tag
            && records@[i].source is Account implies account_tags@.contains_key(tag) by {
        let fits = |record: NoteTagRecord| record.source is Account;
        assert(fits(records@[i]));
        assert(crate::note_transport::backfill::is_tag_of(records@, fits, tag));
    }
}

/// A tag stays covered as long as it is tracked. Tags that are not covered are recovered, at most 64 at a
/// time; if fewer are, no tracked tag is left out.
pub proof fn law_backfill_plan(
    candidates: OrdMap<NoteTag, ()>,
    loaded: OrdMap<NoteTag, ()>,
    plan: BackfillPlan,
    tag: NoteTag,
)
    requires
        call_ensures(plan_backfill, (&candidates, &loaded), plan),
    ensures
        plan.covered@.contains_key(tag) <==> loaded@.contains_key(tag) && candidates@.contains_key(
            tag,
        ),
        loaded@.contains_key(tag) && !candidates@.contains_key(tag) ==> plan.pruned,
        plan.new_tags@.contains(tag) ==> candidates@.contains_key(tag) && !loaded@.contains_key(tag),
        plan.new_tags@.len() <= 64,
        plan.new_tags@.len() < 64 && candidates@.contains_key(tag) && !loaded@.contains_key(tag)
            ==> plan.new_tags@.contains(tag),
{
    let listed = candidates.listing();
    let m = law_uncovered_tags_are_recovered(listed, loaded@, 64);
    let wanted = |i: int| !loaded@.contains_key(listed[i].0);
    let value = |i: int| listed[i].0;
    let at = choose|at: Seq<int>| #[trigger]
        crate::collections::picks_at(plan.new_tags@, at, m, wanted, value);
    assert(plan.covered@.dom().contains(tag) == plan.covered@.contains_key(tag));
    assert(loaded@.dom().contains(tag) == loaded@.contains_key(tag));
    assert(candidates@.dom().contains(tag) == candidates@.contains_key(tag));
    if plan.new_tags@.contains(tag) {
        let k = choose|k: int| 0 <= k < plan.new_tags@.len() && plan.new_tags@[k] == tag;
        assert(wanted(at[k]));
        assert(listed[at[k]].0 == tag);
        assert(candidates@.contains_key(tag));
    }
    if plan.new_tags@.len() < 64 && candidates@.contains_key(tag) && !loaded@.contains_key(tag) {
        let i = choose|i: int| 0 <= i < listed.len() && (#[trigger] listed[i]).0 == tag;
        assert(wanted(i));
        let k = choose|k: int| 0 <= k < at.len() && at[k] == i;
        assert(plan.new_tags@[k] == tag);
    }
}

/// What is covered afterwards is what was, and what was recovered; it is stored only if that changed
/// something.
pub proof fn law_covered_after(
    plan: BackfillPlan,
    covered: Option<OrdMap<NoteTag, ()>>,
    tag: NoteTag,
)
    requires
        call_ensures(BackfillPlan::covered_after, (plan,), covered),
    ensures
        covered is None <==> !plan.pruned && plan.new_tags@.len() == 0,
        covered matches Some(now) ==> (now@.contains_key(tag) <==> plan.covered@.contains_key(tag)
            || plan.new_tags@.contains(tag)),
{
    if let Some(now) = covered {
        assert(now@.dom().contains(tag) == now@.contains_key(tag));
        assert(plan.covered@.dom().contains(tag) == plan.covered@.contains_key(tag));
        assert(plan.new_tags@.to_set().contains(tag) == plan.new_tags@.contains(tag));
    }
}


/// A run reads at most a thousand pages: it goes on as long as the cursor moves forward, and is at fault
/// if it does so for longer.
pub proof fn law_run_is_bounded(run: BackfillRun)
    ensures
        run.wf() <==> run.pages < 1000,
{
}

} // verus!
