//! The operations of the store on notes.

use crate::forest::has_folder;
use crate::ident::{is_safe_id, safe_id};
use crate::model::{lemma_note_views_push, note_views, Note, NoteView, StoreError};
use crate::store::{has_note, note_index, store_wf, unique_note_ids, Store, StoreView};
use vstd::prelude::*;

verus! {

/// `n` one place further down if it is an unpinned note of `folder`.
pub open spec fn shifted(n: NoteView, folder: Seq<char>) -> NoteView {
    if n.folder_id == folder && !n.pinned {
        NoteView { sort_order: (n.sort_order + 1) as i64, ..n }
    } else {
        n
    }
}

/// `ns` with every unpinned note of `folder` one place further down.
pub open spec fn shift_folder(ns: Seq<NoteView>, folder: Seq<char>) -> Seq<NoteView> {
    Seq::new(ns.len(), |i: int| shifted(ns[i], folder))
}

/// Every unpinned note of `folder` can go one place further down.
pub open spec fn can_shift(ns: Seq<NoteView>, folder: Seq<char>) -> bool {
    forall|i: int|
        0 <= i < ns.len() && (#[trigger] ns[i]).folder_id == folder && !ns[i].pinned
            ==> ns[i].sort_order < i64::MAX
}

/// A note as it is when it was just created: unpinned, on top of its
/// folder.
pub open spec fn fresh_note(
    id: Seq<char>,
    folder: Seq<char>,
    title: Seq<char>,
    body: Seq<char>,
    now: i64,
) -> NoteView {
    NoteView {
        id,
        folder_id: folder,
        title,
        body,
        created_at: now,
        updated_at: now,
        pinned: false,
        sort_order: 0,
    }
}

/// Why a note with this id cannot be filed in `folder`, if it cannot.
pub open spec fn file_note_error(s: StoreView, id: Seq<char>, folder: Seq<char>) -> Option<
    StoreError,
> {
    if !has_folder(s.folders, folder) {
        Some(StoreError::FolderNotFound)
    } else if has_note(s.notes, id) {
        Some(StoreError::DuplicateId)
    } else if !can_shift(s.notes, folder) {
        Some(StoreError::OrderOverflow)
    } else {
        None
    }
}

/// `s` after the note `n` was filed on top of its folder.
pub open spec fn filed(s: StoreView, n: NoteView) -> StoreView {
    StoreView { folders: s.folders, notes: shift_folder(s.notes, n.folder_id).push(n) }
}

/// Why the note cannot be put in as it is, if it cannot.
pub open spec fn insert_note_error(s: StoreView, n: NoteView) -> Option<StoreError> {
    if has_note(s.notes, n.id) {
        Some(StoreError::DuplicateId)
    } else if !has_folder(s.folders, n.folder_id) {
        Some(StoreError::FolderNotFound)
    } else {
        None
    }
}

/// Why the note cannot be overwritten with the stamp, if it cannot.
pub open spec fn update_note_error(ns: Seq<NoteView>, id: Seq<char>, stamp: i64) -> Option<
    StoreError,
> {
    if !safe_id(id) {
        Some(StoreError::InvalidNoteId)
    } else if !has_note(ns, id) {
        Some(StoreError::NoteNotFound)
    } else if ns[note_index(ns, id)].updated_at > stamp {
        Some(StoreError::Stale)
    } else {
        None
    }
}

/// `ns` after the note with the id was overwritten.
pub open spec fn updated(
    ns: Seq<NoteView>,
    id: Seq<char>,
    title: Seq<char>,
    body: Seq<char>,
    stamp: i64,
) -> Seq<NoteView> {
    ns.update(
        note_index(ns, id),
        NoteView { title, body, updated_at: stamp, ..ns[note_index(ns, id)] },
    )
}

/// `ns` without the note with the id.
pub open spec fn without_note(ns: Seq<NoteView>, id: Seq<char>) -> Seq<NoteView> {
    if has_note(ns, id) {
        ns.remove(note_index(ns, id))
    } else {
        ns
    }
}

/// `ns` with the pin of the note with the id set to `pinned`.
pub open spec fn with_pin(ns: Seq<NoteView>, id: Seq<char>, pinned: bool) -> Seq<NoteView> {
    if has_note(ns, id) {
        ns.update(note_index(ns, id), NoteView { pinned, ..ns[note_index(ns, id)] })
    } else {
        ns
    }
}

/// `ns` with the sort order of the note with the id set to `order`.
pub open spec fn with_order(ns: Seq<NoteView>, id: Seq<char>, order: i64) -> Seq<NoteView> {
    if has_note(ns, id) {
        ns.update(note_index(ns, id), NoteView { sort_order: order, ..ns[note_index(ns, id)] })
    } else {
        ns
    }
}

/// Where ids are unique, the note at place `i` is the one found by its id.
pub proof fn lemma_note_index(ns: Seq<NoteView>, i: int)
    requires
        unique_note_ids(ns),
        0 <= i < ns.len(),
    ensures
        has_note(ns, ns[i].id),
        note_index(ns, ns[i].id) == i,
{
    assert(ns[i].id == ns[i].id);
}

/// A store stays well formed when a note is replaced by one with the same
/// id and folder.
pub proof fn lemma_update_note_wf(s: StoreView, i: int, n: NoteView)
    requires
        store_wf(s),
        0 <= i < s.notes.len(),
        n.id == s.notes[i].id,
        n.folder_id == s.notes[i].folder_id,
    ensures
        store_wf(StoreView { folders: s.folders, notes: s.notes.update(i, n) }),
{
    let ns = s.notes;
    let new = ns.update(i, n);
    assert forall|a: int, b: int|
        0 <= a < new.len() && 0 <= b < new.len() && a != b implies (#[trigger] new[a]).id != (
        #[trigger] new[b]).id by {
        assert(new[a].id == ns[a].id && new[b].id == ns[b].id);
    }
    assert forall|a: int| 0 <= a < new.len() implies has_folder(
        s.folders,
        (#[trigger] new[a]).folder_id,
    ) by {
        assert(new[a].folder_id == ns[a].folder_id);
    }
}

/// A store stays well formed when a note is filed on top of a folder that
/// exists, under an id that is free.
pub proof fn lemma_filed_wf(s: StoreView, n: NoteView)
    requires
        store_wf(s),
        has_folder(s.folders, n.folder_id),
        !has_note(s.notes, n.id),
    ensures
        store_wf(filed(s, n)),
{
    let ns = s.notes;
    let sh = shift_folder(ns, n.folder_id);
    let new = sh.push(n);
    assert forall|a: int, b: int|
        0 <= a < new.len() && 0 <= b < new.len() && a != b implies (#[trigger] new[a]).id != (
        #[trigger] new[b]).id by {
        if a < ns.len() {
            assert(new[a].id == ns[a].id);
        }
        if b < ns.len() {
            assert(new[b].id == ns[b].id);
        }
    }
    assert forall|a: int| 0 <= a < new.len() implies has_folder(
        s.folders,
        (#[trigger] new[a]).folder_id,
    ) by {
        if a < ns.len() {
            assert(new[a].folder_id == ns[a].folder_id);
        }
    }
}

/// A store stays well formed when a note is taken out.
pub proof fn lemma_remove_note_wf(s: StoreView, i: int)
    requires
        store_wf(s),
        0 <= i < s.notes.len(),
    ensures
        store_wf(StoreView { folders: s.folders, notes: s.notes.remove(i) }),
{
    let ns = s.notes;
    let new = ns.remove(i);
    ns.remove_ensures(i);
    let src = |a: int| if a < i { a } else { a + 1 };
    assert forall|a: int| 0 <= a < new.len() implies #[trigger] new[a] == ns[src(a)] by {}
    assert forall|a: int, b: int|
        0 <= a < new.len() && 0 <= b < new.len() && a != b implies (#[trigger] new[a]).id != (
        #[trigger] new[b]).id by {
        assert(new[a] == ns[src(a)] && new[b] == ns[src(b)]);
    }
    assert forall|a: int| 0 <= a < new.len() implies has_folder(
        s.folders,
        (#[trigger] new[a]).folder_id,
    ) by {
        assert(new[a] == ns[src(a)]);
    }
}

impl Store {
    /// Files a new note on top of `folder_id`: every unpinned note of the
    /// folder goes one place down, and the new note, unpinned, takes place
    /// 0. `id` is the new note's id and `now` the time of creation.
    ///
    /// The folder has to exist and the id has to be free. On an error the
    /// store is left as it was.
    pub fn file_note(
        &mut self,
        id: String,
        folder_id: String,
        title: String,
        body: String,
        now: i64,
    ) -> (r: Result<(), StoreError>)
        requires
            old(self).wf(),
        ensures
            final(self).wf(),
            match file_note_error(old(self)@, id@, folder_id@) {
                Some(e) => r == Err::<(), StoreError>(e) && final(self)@ == old(self)@,
                None => r is Ok && final(self)@ == filed(
                    old(self)@,
                    fresh_note(id@, folder_id@, title@, body@, now),
                ),
            },
    {
        if self.find_folder(folder_id.as_str()).is_none() {
            return Err(StoreError::FolderNotFound);
        }
        if self.find_note(id.as_str()).is_some() {
            return Err(StoreError::DuplicateId);
        }
        let ghost ns = self@.notes;
        let ghost fs = self@.folders;
        let n = self.notes.len();
        let mut i: usize = 0;
        while i < n
            invariant
                i <= n,
                n == self.notes.len(),
                ns == self@.notes,
                self@ == old(self)@,
                self.wf(),
                has_folder(fs, folder_id@),
                !has_note(ns, id@),
                forall|j: int|
                    0 <= j < i && (#[trigger] ns[j]).folder_id == folder_id@ && !ns[j].pinned
                        ==> ns[j].sort_order < i64::MAX,
            decreases n - i,
        {
            assert(ns[i as int] == self.notes@[i as int]@);
            let note = &self.notes[i];
            if note.folder_id == folder_id && !note.pinned && note.sort_order == i64::MAX {
                return Err(StoreError::OrderOverflow);
            }
            i += 1;
        }
        i = 0;
        while i < n
            invariant
                i <= n,
                n == self.notes.len(),
                n == ns.len(),
                fs == self@.folders,
                can_shift(ns, folder_id@),
                forall|j: int| 0 <= j < i ==> (#[trigger] self@.notes[j]) == shifted(ns[j], folder_id@),
                forall|j: int| i <= j < n ==> (#[trigger] self@.notes[j]) == ns[j],
            decreases n - i,
        {
            assert(self@.notes[i as int] == self.notes@[i as int]@);
            assert(ns[i as int].folder_id == folder_id@ && !ns[i as int].pinned
                ==> ns[i as int].sort_order < i64::MAX);
            let ghost prev = self.notes@;
            if self.notes[i].folder_id == folder_id && !self.notes[i].pinned {
                let next: i64 = self.notes[i].sort_order + 1;
                self.notes[i].sort_order = next;
            }
            proof {
                assert forall|j: int| 0 <= j < n && j != i implies self.notes@[j] == prev[j] by {}
                assert(self@.notes[i as int] == shifted(ns[i as int], folder_id@));
                assert forall|j: int| 0 <= j < i + 1 implies (#[trigger] self@.notes[j]) == shifted(
                    ns[j],
                    folder_id@,
                ) by {
                    if j < i {
                        assert(self.notes@[j] == prev[j]);
                        assert(note_views(prev)[j] == shifted(ns[j], folder_id@));
                    }
                }
                assert forall|j: int| i + 1 <= j < n implies (#[trigger] self@.notes[j]) == ns[j] by {
                    assert(self.notes@[j] == prev[j]);
                    assert(note_views(prev)[j] == ns[j]);
                }
            }
            i += 1;
        }
        assert(self@.notes =~= shift_folder(ns, folder_id@));
        let note = Note {
            id,
            folder_id,
            title,
            body,
            created_at: now,
            updated_at: now,
            pinned: false,
            sort_order: 0,
        };
        proof {
            lemma_note_views_push(self.notes@, note);
            lemma_filed_wf(old(self)@, note@);
        }
        self.notes.push(note);
        Ok(())
    }

    /// Puts in a note as it is given, with its own times, pin and sort
    /// order; no other note changes.
    ///
    /// The id has to be free and the folder has to exist. On an error the
    /// store is left as it was.
    pub fn insert_note(&mut self, note: Note) -> (r: Result<(), StoreError>)
        requires
            old(self).wf(),
        ensures
            final(self).wf(),
            final(self)@.folders == old(self)@.folders,
            match insert_note_error(old(self)@, note@) {
                Some(e) => r == Err::<(), StoreError>(e) && final(self)@ == old(self)@,
                None => r is Ok && final(self)@.notes == old(self)@.notes.push(note@),
            },
    {
        if self.find_note(note.id.as_str()).is_some() {
            return Err(StoreError::DuplicateId);
        }
        if self.find_folder(note.folder_id.as_str()).is_none() {
            return Err(StoreError::FolderNotFound);
        }
        proof {
            lemma_note_views_push(self.notes@, note);
            let ns = self@.notes;
            let new = ns.push(note@);
            assert forall|a: int, b: int|
                0 <= a < new.len() && 0 <= b < new.len() && a != b implies (#[trigger] new[a]).id != (
                #[trigger] new[b]).id by {
                if a < ns.len() {
                    assert(new[a] == ns[a]);
                }
                if b < ns.len() {
                    assert(new[b] == ns[b]);
                }
            }
            assert forall|a: int| 0 <= a < new.len() implies has_folder(
                self@.folders,
                (#[trigger] new[a]).folder_id,
            ) by {
                if a < ns.len() {
                    assert(new[a] == ns[a]);
                }
            }
        }
        self.notes.push(note);
        Ok(())
    }

    /// Overwrites title and body of a note and sets its time of update to
    /// `stamp`, unless the stored note is newer than `stamp`: an equal time
    /// is accepted.
    ///
    /// On an error the store is left as it was.
    pub fn update_note(&mut self, id: &str, title: String, body: String, stamp: i64) -> (r: Result<
        (),
        StoreError,
    >)
        requires
            old(self).wf(),
        ensures
            final(self).wf(),
            final(self)@.folders == old(self)@.folders,
            match update_note_error(old(self)@.notes, id@, stamp) {
                Some(e) => r == Err::<(), StoreError>(e) && final(self)@ == old(self)@,
                None => r is Ok && final(self)@.notes == updated(
                    old(self)@.notes,
                    id@,
                    title@,
                    body@,
                    stamp,
                ),
            },
    {
        if !is_safe_id(id) {
            return Err(StoreError::InvalidNoteId);
        }
        let i = match self.find_note(id) {
            Some(i) => i,
            None => {
                return Err(StoreError::NoteNotFound);
            },
        };
        assert(self@.notes[i as int] == self.notes@[i as int]@);
        if self.notes[i].updated_at > stamp {
            return Err(StoreError::Stale);
        }
        proof {
            let ns = self@.notes;
            lemma_update_note_wf(
                self@,
                i as int,
                NoteView { title: title@, body: body@, updated_at: stamp, ..ns[i as int] },
            );
        }
        self.notes[i].title = title;
        self.notes[i].body = body;
        self.notes[i].updated_at = stamp;
        assert(self@.notes =~= updated(old(self)@.notes, id@, title@, body@, stamp));
        Ok(())
    }

    /// Deletes the note with the id and tells whether there was one.
    pub fn delete_note(&mut self, id: &str) -> (found: bool)
        requires
            old(self).wf(),
        ensures
            final(self).wf(),
            found == has_note(old(self)@.notes, id@),
            final(self)@.folders == old(self)@.folders,
            final(self)@.notes == without_note(old(self)@.notes, id@),
    {
        match self.find_note(id) {
            Some(i) => {
                proof {
                    lemma_remove_note_wf(self@, i as int);
                }
                self.notes.remove(i);
                assert(self@.notes =~= old(self)@.notes.remove(i as int));
                true
            },
            None => false,
        }
    }

    /// Pins or unpins the note with the id and tells whether there was one.
    pub fn set_pinned(&mut self, id: &str, pinned: bool) -> (found: bool)
        requires
            old(self).wf(),
        ensures
            final(self).wf(),
            found == has_note(old(self)@.notes, id@),
            final(self)@.folders == old(self)@.folders,
            final(self)@.notes == with_pin(old(self)@.notes, id@, pinned),
    {
        match self.find_note(id) {
            Some(i) => {
                assert(self@.notes[i as int] == self.notes@[i as int]@);
                proof {
                    let ns = self@.notes;
                    lemma_update_note_wf(self@, i as int, NoteView { pinned, ..ns[i as int] });
                }
                self.notes[i].pinned = pinned;
                assert(self@.notes =~= with_pin(old(self)@.notes, id@, pinned));
                true
            },
            None => false,
        }
    }
}

} // verus!
