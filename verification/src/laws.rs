//! What holds of the store as a whole, proved from the contracts of its
//! operations.

use crate::cascade::{lemma_without_subtree_wf, without_subtree};
use crate::flags::lemma_filter_members;
use crate::folders::{
    age_slot, create_folder_error, lemma_age_slot, lemma_age_slot_range, lemma_insert_folder_wf,
    reparent_folder_error,
};
use crate::forest::{has_folder, under};
use crate::ident::safe_id;
use crate::inbox::{
    create_note_error, has_inbox, inbox_index, is_inbox, lemma_one_inbox, new_inbox, note_stage,
    note_target, one_inbox, with_inbox,
};
use crate::model::{ErrorCode, FolderView, NoteView, StoreError};
use crate::notes::{
    can_shift, filed, fresh_note, lemma_note_index, shifted, update_note_error, updated,
};
use crate::search::{clamped, picks_newest};
use crate::store::{
    has_note, note_index, notes_filed, root_name_taken, store_wf, unique_note_ids, StoreView,
};
use vstd::prelude::*;

verus! {

/// One write to a note: a title, a body and a time of update.
pub struct Write {
    pub title: Seq<char>,
    pub body: Seq<char>,
    pub stamp: i64,
}

/// The notes after one write to the note `id` was tried: the write is
/// taken where the store accepts it and dropped where it does not.
pub open spec fn after_write(ns: Seq<NoteView>, id: Seq<char>, w: Write) -> Seq<NoteView> {
    if update_note_error(ns, id, w.stamp) is None {
        updated(ns, id, w.title, w.body, w.stamp)
    } else {
        ns
    }
}

/// The notes after the writes of `ws` to the note `id` were tried in order.
pub open spec fn after_writes(ns: Seq<NoteView>, id: Seq<char>, ws: Seq<Write>) -> Seq<NoteView>
    decreases ws.len(),
{
    if ws.len() == 0 {
        ns
    } else {
        after_write(after_writes(ns, id, ws.drop_last()), id, ws.last())
    }
}

/// A write that is older than the stored note is turned down as a
/// conflict, where the note's id is a safe id; a write that is taken never
/// sets the stored time back.
pub proof fn law_update_is_compare_and_swap(ns: Seq<NoteView>, id: Seq<char>, w: Write)
    requires
        unique_note_ids(ns),
        has_note(ns, id),
    ensures
        safe_id(id) && w.stamp < ns[note_index(ns, id)].updated_at ==> update_note_error(
            ns,
            id,
            w.stamp,
        ) == Some(StoreError::Stale) && StoreError::Stale.spec_code() == ErrorCode::Conflict
            && after_write(ns, id, w) == ns,
        unique_note_ids(after_write(ns, id, w)),
        has_note(after_write(ns, id, w), id),
        note_index(after_write(ns, id, w), id) == note_index(ns, id),
        after_write(ns, id, w)[note_index(ns, id)].updated_at >= ns[note_index(ns, id)].updated_at,
{
    let i = note_index(ns, id);
    let new = after_write(ns, id, w);
    assert forall|a: int, b: int|
        0 <= a < new.len() && 0 <= b < new.len() && a != b implies (#[trigger] new[a]).id != (
        #[trigger] new[b]).id by {
        assert(new[a].id == ns[a].id && new[b].id == ns[b].id);
    }
    assert(new[i].id == id);
    lemma_note_index(new, i);
}

/// Whatever writes are tried on a note, and in whatever order, the stored
/// time of update never goes back.
pub proof fn law_updated_at_never_decreases(ns: Seq<NoteView>, id: Seq<char>, ws: Seq<Write>)
    requires
        unique_note_ids(ns),
        has_note(ns, id),
    ensures
        unique_note_ids(after_writes(ns, id, ws)),
        has_note(after_writes(ns, id, ws), id),
        note_index(after_writes(ns, id, ws), id) == note_index(ns, id),
        after_writes(ns, id, ws)[note_index(ns, id)].updated_at >= ns[note_index(ns, id)].updated_at,
    decreases ws.len(),
{
    if ws.len() > 0 {
        law_updated_at_never_decreases(ns, id, ws.drop_last());
        law_update_is_compare_and_swap(after_writes(ns, id, ws.drop_last()), id, ws.last());
    }
}

/// Asking for the inbox again changes nothing: a store that was given an
/// inbox has exactly one, however often it is asked for.
pub proof fn law_inbox_is_made_once(s: StoreView, id1: Seq<char>, t1: i64, id2: Seq<char>, t2: i64)
    requires
        store_wf(s),
        has_inbox(s.folders) || !has_folder(s.folders, id1),
    ensures
        one_inbox(with_inbox(s, id1, t1).folders),
        with_inbox(with_inbox(s, id1, t1), id2, t2) == with_inbox(s, id1, t1),
{
    let t = with_inbox(s, id1, t1);
    if has_inbox(s.folders) {
        lemma_one_inbox(s.folders);
    } else {
        let fs = s.folders;
        let pos = age_slot(fs, t1);
        lemma_age_slot_range(fs, t1);
        fs.insert_ensures(pos, new_inbox(id1, t1));
        assert(is_inbox(t.folders[pos]));
        assert forall|i: int, j: int|
            0 <= i < t.folders.len() && 0 <= j < t.folders.len() && is_inbox(
                #[trigger] t.folders[i],
            ) && is_inbox(#[trigger] t.folders[j]) implies i == j by {
            if i != pos {
                let k = if i < pos {
                    i
                } else {
                    i - 1
                };
                assert(t.folders[i] == fs[k]);
                assert(is_inbox(fs[k]));
            }
            if j != pos {
                let k = if j < pos {
                    j
                } else {
                    j - 1
                };
                assert(t.folders[j] == fs[k]);
                assert(is_inbox(fs[k]));
            }
        }
    }
}

/// One request for the inbox: the id to create it under, and the time.
pub struct InboxRequest {
    pub id: Seq<char>,
    pub now: i64,
}

/// The store after the requests of `rs` for the inbox were answered one
/// after the other, as they are where each holds the write lock from its
/// start to its end.
pub open spec fn after_inbox_requests(s: StoreView, rs: Seq<InboxRequest>) -> StoreView
    decreases rs.len(),
{
    if rs.len() == 0 {
        s
    } else {
        let before = after_inbox_requests(s, rs.drop_last());
        if !has_inbox(before.folders) && has_folder(before.folders, rs.last().id) {
            before
        } else {
            with_inbox(before, rs.last().id, rs.last().now)
        }
    }
}

/// However many requests for the inbox are answered, and in whatever
/// order, the store has exactly one inbox afterwards: the one that the first
/// request found or made.
pub proof fn law_one_inbox_for_any_number_of_requests(s: StoreView, rs: Seq<InboxRequest>)
    requires
        store_wf(s),
        rs.len() >= 1,
        has_inbox(s.folders) || !has_folder(s.folders, rs[0].id),
    ensures
        after_inbox_requests(s, rs) == with_inbox(s, rs[0].id, rs[0].now),
        one_inbox(after_inbox_requests(s, rs).folders),
    decreases rs.len(),
{
    let first = with_inbox(s, rs[0].id, rs[0].now);
    law_inbox_is_made_once(s, rs[0].id, rs[0].now, rs.last().id, rs.last().now);
    if rs.len() == 1 {
        assert(rs.drop_last().len() == 0);
        assert(after_inbox_requests(s, rs.drop_last()) == s);
    } else {
        let init = rs.drop_last();
        assert(init[0] == rs[0]);
        law_one_inbox_for_any_number_of_requests(s, init);
        assert(after_inbox_requests(s, init) == first);
        assert(has_inbox(first.folders));
    }
}

/// A store stays well formed when it is given an inbox.
pub proof fn lemma_with_inbox_wf(s: StoreView, id: Seq<char>, now: i64)
    requires
        store_wf(s),
        has_inbox(s.folders) || !has_folder(s.folders, id),
    ensures
        store_wf(with_inbox(s, id, now)),
{
    if !has_inbox(s.folders) {
        let fs = s.folders;
        let f = new_inbox(id, now);
        lemma_age_slot(fs, now);
        assert(!root_name_taken(fs, f.name, f.id)) by {
            if root_name_taken(fs, f.name, f.id) {
                let i = choose|i: int|
                    0 <= i < fs.len() && (#[trigger] fs[i]).parent_id is None && fs[i].name
                        == f.name && fs[i].id != f.id;
                assert(is_inbox(fs[i]));
            }
        }
        lemma_insert_folder_wf(s, f, age_slot(fs, now));
    }
}

/// Requests for the inbox never leave two: whatever the ids that they
/// bring, the store has exactly one inbox afterwards, or it is as it was,
/// without one, because every id that was brought is a folder's already.
/// One request whose id is free is enough for the inbox to be there.
pub proof fn law_never_two_inboxes(s: StoreView, rs: Seq<InboxRequest>)
    requires
        store_wf(s),
    ensures
        store_wf(after_inbox_requests(s, rs)),
        one_inbox(after_inbox_requests(s, rs).folders) || (after_inbox_requests(s, rs) == s
            && !has_inbox(s.folders)),
        has_inbox(s.folders) ==> after_inbox_requests(s, rs) == s,
        (exists|i: int| 0 <= i < rs.len() && !has_folder(s.folders, (#[trigger] rs[i]).id))
            ==> one_inbox(after_inbox_requests(s, rs).folders),
    decreases rs.len(),
{
    if has_inbox(s.folders) {
        lemma_one_inbox(s.folders);
    }
    if rs.len() > 0 {
        let init = rs.drop_last();
        let last = rs.last();
        law_never_two_inboxes(s, init);
        let before = after_inbox_requests(s, init);
        if has_inbox(before.folders) || !has_folder(before.folders, last.id) {
            lemma_with_inbox_wf(before, last.id, last.now);
            law_inbox_is_made_once(before, last.id, last.now, last.id, last.now);
        }
        if exists|i: int| 0 <= i < rs.len() && !has_folder(s.folders, (#[trigger] rs[i]).id) {
            let i = choose|i: int| 0 <= i < rs.len() && !has_folder(s.folders, (#[trigger] rs[i]).id);
            if i < init.len() {
                assert(init[i] == rs[i]);
            }
        }
    }
}

/// A note that is created without a folder in a store without folders
/// makes exactly one inbox and is filed in it.
pub proof fn law_first_note_makes_inbox(
    s: StoreView,
    id: Seq<char>,
    title: Seq<char>,
    body: Seq<char>,
    inbox: Seq<char>,
    now: i64,
)
    requires
        store_wf(s),
        s.folders.len() == 0,
    ensures
        create_note_error(s, id, None, inbox, now) is None,
        ({
            let t = filed(
                note_stage(s, None, inbox, now),
                fresh_note(id, note_target(s, None, inbox, now), title, body, now),
            );
            &&& t.folders.len() == 1
            &&& is_inbox(t.folders[0])
            &&& one_inbox(t.folders)
            &&& t.notes.len() == 1
            &&& t.notes[0].id == id
            &&& t.notes[0].folder_id == t.folders[0].id
        }),
{
    let fs = s.folders;
    assert(s.notes.len() == 0) by {
        if s.notes.len() > 0 {
            assert(has_folder(fs, s.notes[0].folder_id));
        }
    }
    let mid = with_inbox(s, inbox, now);
    lemma_age_slot_range(fs, now);
    fs.insert_ensures(0, new_inbox(inbox, now));
    assert(mid.folders.len() == 1);
    assert(is_inbox(mid.folders[0]));
    assert(inbox_index(mid.folders) == 0);
    assert(mid.folders[0].id == inbox);
    assert(has_folder(mid.folders, inbox));
}

/// A note that is created is new and on top: its id was no note's before,
/// it is filed last, unpinned, at place 0 of the folder that was asked for
/// or of the inbox, and every unpinned note that was in that folder has gone
/// down by exactly one place, so that their order among themselves is kept;
/// no other note has changed.
pub proof fn law_created_note_is_new_and_on_top(
    s: StoreView,
    id: Seq<char>,
    title: Seq<char>,
    body: Seq<char>,
    folder: Option<Seq<char>>,
    inbox: Seq<char>,
    now: i64,
)
    requires
        create_note_error(s, id, folder, inbox, now) is None,
    ensures
        ({
            let stage = note_stage(s, folder, inbox, now);
            let target = note_target(s, folder, inbox, now);
            let t = filed(stage, fresh_note(id, target, title, body, now));
            &&& !has_note(stage.notes, id)
            &&& has_folder(t.folders, target)
            &&& folder matches Some(f) ==> target == f && safe_id(f)
            &&& t.folders == stage.folders
            &&& t.notes.len() == stage.notes.len() + 1
            &&& t.notes.last().id == id
            &&& t.notes.last().folder_id == target
            &&& t.notes.last().sort_order == 0
            &&& !t.notes.last().pinned
            &&& forall|i: int|
                0 <= i < stage.notes.len() ==> (#[trigger] t.notes[i]) == shifted(
                    stage.notes[i],
                    target,
                )
            &&& forall|i: int|
                0 <= i < stage.notes.len() && (#[trigger] stage.notes[i]).folder_id == target
                    && !stage.notes[i].pinned ==> t.notes[i].sort_order == stage.notes[i].sort_order
                    + 1
            &&& forall|i: int|
                0 <= i < stage.notes.len() && !((#[trigger] stage.notes[i]).folder_id == target
                    && !stage.notes[i].pinned) ==> t.notes[i] == stage.notes[i]
        }),
{
    let stage = note_stage(s, folder, inbox, now);
    let target = note_target(s, folder, inbox, now);
    let t = filed(stage, fresh_note(id, target, title, body, now));
    assert(can_shift(stage.notes, target));
    assert forall|i: int|
        0 <= i < stage.notes.len() && (#[trigger] stage.notes[i]).folder_id == target
            && !stage.notes[i].pinned implies t.notes[i].sort_order == stage.notes[i].sort_order
        + 1 by {
        assert(t.notes[i] == shifted(stage.notes[i], target));
    }
    assert forall|i: int|
        0 <= i < stage.notes.len() && !((#[trigger] stage.notes[i]).folder_id == target
            && !stage.notes[i].pinned) implies t.notes[i] == stage.notes[i] by {
        assert(t.notes[i] == shifted(stage.notes[i], target));
    }
}

/// A new note takes place 0 of its folder, and every unpinned note that was
/// in the folder goes one place down; no other note changes.
pub proof fn law_new_note_goes_on_top(s: StoreView, n: NoteView, i: int)
    requires
        n.sort_order == 0,
        can_shift(s.notes, n.folder_id),
        0 <= i < s.notes.len(),
    ensures
        filed(s, n).notes.len() == s.notes.len() + 1,
        filed(s, n).notes.last() == n,
        s.notes[i].folder_id == n.folder_id && !s.notes[i].pinned ==> filed(s, n).notes[i]
            == (NoteView { sort_order: (s.notes[i].sort_order + 1) as i64, ..s.notes[i] })
            && filed(s, n).notes[i].sort_order == s.notes[i].sort_order + 1,
        !(s.notes[i].folder_id == n.folder_id && !s.notes[i].pinned) ==> filed(s, n).notes[i]
            == s.notes[i],
{
}

/// After a folder was deleted, none of the folders below it is left, nor a
/// note filed in any of them; what did not lie under it is all there; and
/// every note left is filed in a folder that is left.
pub proof fn law_delete_folder_takes_whole_subtree(s: StoreView, id: Seq<char>)
    requires
        store_wf(s),
    ensures
        store_wf(without_subtree(s, id)),
        notes_filed(without_subtree(s, id).folders, without_subtree(s, id).notes),
        forall|i: int|
            0 <= i < without_subtree(s, id).folders.len() ==> !under(
                s.folders,
                (#[trigger] without_subtree(s, id).folders[i]).id,
                id,
            ),
        forall|i: int|
            0 <= i < without_subtree(s, id).notes.len() ==> !under(
                s.folders,
                (#[trigger] without_subtree(s, id).notes[i]).folder_id,
                id,
            ),
        forall|i: int|
            0 <= i < s.folders.len() && !under(s.folders, (#[trigger] s.folders[i]).id, id)
                ==> without_subtree(s, id).folders.contains(s.folders[i]),
        forall|i: int|
            0 <= i < s.notes.len() && !under(s.folders, (#[trigger] s.notes[i]).folder_id, id)
                ==> without_subtree(s, id).notes.contains(s.notes[i]),
{
    let t = without_subtree(s, id);
    let fp = |f: FolderView| !under(s.folders, f.id, id);
    let np = |n: NoteView| !under(s.folders, n.folder_id, id);
    lemma_without_subtree_wf(s, id);
    lemma_filter_members(s.folders, fp);
    lemma_filter_members(s.notes, np);
    assert forall|i: int| 0 <= i < t.folders.len() implies !under(
        s.folders,
        (#[trigger] t.folders[i]).id,
        id,
    ) by {
        assert(t.folders.contains(t.folders[i]));
    }
    assert forall|i: int| 0 <= i < t.notes.len() implies !under(
        s.folders,
        (#[trigger] t.notes[i]).folder_id,
        id,
    ) by {
        assert(t.notes.contains(t.notes[i]));
    }
    assert forall|i: int|
        0 <= i < s.folders.len() && !under(
            s.folders,
            (#[trigger] s.folders[i]).id,
            id,
        ) implies t.folders.contains(s.folders[i]) by {
        assert(s.folders.contains(s.folders[i]));
    }
    assert forall|i: int|
        0 <= i < s.notes.len() && !under(
            s.folders,
            (#[trigger] s.notes[i]).folder_id,
            id,
        ) implies t.notes.contains(s.notes[i]) by {
        assert(s.notes.contains(s.notes[i]));
    }
}

/// The notes that a search without text returns are never more than the
/// limit asks for, and never more than 200; they stand newest first.
pub proof fn law_recent_is_capped(ns: Seq<NoteView>, picks: Seq<int>, limit: Option<i64>)
    requires
        picks_newest(ns, picks, clamped(limit)),
    ensures
        1 <= clamped(limit) <= 200,
        limit is Some && 1 <= limit->0 <= 200 ==> clamped(limit) == limit->0,
        limit is None ==> clamped(limit) == 80,
        picks.len() <= clamped(limit),
        picks.len() <= ns.len(),
        picks.len() == clamped(limit) || picks.len() == ns.len(),
        forall|a: int, b: int|
            0 <= a < b < picks.len() ==> ns[#[trigger] picks[a]].updated_at >= ns[#[trigger] picks[b]].updated_at,
{
}

/// A folder is never moved below itself, nor below a folder whose parent
/// chain comes back to it: both are validation errors.
pub proof fn law_reparent_rejects_cycles(fs: Seq<FolderView>, id: Seq<char>, parent: Seq<char>)
    requires
        parent == id || under(fs, parent, id),
    ensures
        reparent_folder_error(fs, id, Some(parent)) matches Some(e) && e.spec_code()
            == ErrorCode::Validation,
        parent == id ==> reparent_folder_error(fs, id, Some(parent)) == Some(StoreError::SelfParent),
        parent != id && has_folder(fs, id) && has_folder(fs, parent) ==> reparent_folder_error(
            fs,
            id,
            Some(parent),
        ) == Some(StoreError::Cycle),
{
}

/// A folder is never created below itself, nor below a folder whose parent
/// chain comes back to it: both are validation errors.
pub proof fn law_create_rejects_cycles(
    fs: Seq<FolderView>,
    id: Seq<char>,
    name: Seq<char>,
    parent: Seq<char>,
)
    requires
        parent == id || under(fs, parent, id),
    ensures
        create_folder_error(fs, id, name, Some(parent)) matches Some(e) && e.spec_code()
            == ErrorCode::Validation,
        parent == id ==> create_folder_error(fs, id, name, Some(parent)) == Some(
            StoreError::SelfParent,
        ),
{
}

} // verus!
