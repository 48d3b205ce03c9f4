//! The inbox, the root-level folder that takes the notes filed nowhere
//! else, and the creation of notes.

use crate::folders::with_folder;
use crate::forest::has_folder;
use crate::ident::{is_safe_id, safe_id};
use crate::model::{opt_view, Folder, FolderView, StoreError};
use crate::notes::{file_note_error, filed, fresh_note};
use crate::store::{root_name_taken, root_names_unique, Store, StoreView};
use vstd::prelude::*;

verus! {

/// `f` is a root-level folder named "Inbox".
pub open spec fn is_inbox(f: FolderView) -> bool {
    f.parent_id is None && f.name == "Inbox"@
}

/// Some folder of `fs` is an inbox.
pub open spec fn has_inbox(fs: Seq<FolderView>) -> bool {
    exists|i: int| 0 <= i < fs.len() && is_inbox(#[trigger] fs[i])
}

/// The place in `fs` of an inbox, where there is one.
pub open spec fn inbox_index(fs: Seq<FolderView>) -> int {
    choose|i: int| 0 <= i < fs.len() && is_inbox(#[trigger] fs[i])
}

/// The id of the inbox of `fs`, where there is one.
pub open spec fn inbox_id(fs: Seq<FolderView>) -> Seq<char> {
    fs[inbox_index(fs)].id
}

/// Exactly one folder of `fs` is an inbox.
pub open spec fn one_inbox(fs: Seq<FolderView>) -> bool {
    &&& has_inbox(fs)
    &&& forall|i: int, j: int|
        0 <= i < fs.len() && 0 <= j < fs.len() && is_inbox(#[trigger] fs[i]) && is_inbox(
            #[trigger] fs[j],
        ) ==> i == j
}

/// The inbox as it is when it was just created.
pub open spec fn new_inbox(id: Seq<char>, now: i64) -> FolderView {
    FolderView { id, name: "Inbox"@, created_at: now, updated_at: now, parent_id: None }
}

/// `s` with an inbox: `s` itself where it has one, else `s` with a new
/// inbox under the id `id`.
pub open spec fn with_inbox(s: StoreView, id: Seq<char>, now: i64) -> StoreView {
    if has_inbox(s.folders) {
        s
    } else {
        StoreView { folders: with_folder(s.folders, new_inbox(id, now)), notes: s.notes }
    }
}

/// Where root-level names are unique, a store with an inbox has exactly one.
pub proof fn lemma_one_inbox(fs: Seq<FolderView>)
    requires
        root_names_unique(fs),
        has_inbox(fs),
    ensures
        one_inbox(fs),
{
}

/// What a successful creation of a note tells the caller.
#[derive(Clone, Debug, PartialEq, Eq)]
pub struct Created {
    pub id: String,
    pub folder_id: String,
    pub created_at: i64,
    pub updated_at: i64,
}

/// The store in which the note is filed, where a folder was given or not.
pub open spec fn note_stage(s: StoreView, folder: Option<Seq<char>>, inbox: Seq<char>, now: i64) -> StoreView {
    match folder {
        Some(_) => s,
        None => with_inbox(s, inbox, now),
    }
}

/// The folder in which the note is filed.
pub open spec fn note_target(s: StoreView, folder: Option<Seq<char>>, inbox: Seq<char>, now: i64) -> Seq<char> {
    match folder {
        Some(f) => f,
        None => inbox_id(with_inbox(s, inbox, now).folders),
    }
}

/// Why the note cannot be created, if it cannot.
pub open spec fn create_note_error(
    s: StoreView,
    id: Seq<char>,
    folder: Option<Seq<char>>,
    inbox: Seq<char>,
    now: i64,
) -> Option<StoreError> {
    if folder is Some && !safe_id(folder->0) {
        Some(StoreError::InvalidFolderId)
    } else if folder is None && !has_inbox(s.folders) && has_folder(s.folders, inbox) {
        Some(StoreError::DuplicateId)
    } else {
        file_note_error(note_stage(s, folder, inbox, now), id, note_target(s, folder, inbox, now))
    }
}

/// The store after a note could not be created for the reason `e`: the
/// store as it was, but for the inbox that was made for the note before the
/// note itself was turned down.
pub open spec fn create_note_leaves(
    s: StoreView,
    folder: Option<Seq<char>>,
    inbox: Seq<char>,
    now: i64,
    e: StoreError,
) -> StoreView {
    if e == StoreError::InvalidFolderId || (folder is None && !has_inbox(s.folders) && has_folder(
        s.folders,
        inbox,
    )) {
        s
    } else {
        note_stage(s, folder, inbox, now)
    }
}

impl Store {
    /// The place of the inbox.
    pub fn find_inbox(&self) -> (r: Option<usize>)
        ensures
            match r {
                Some(i) => i < self@.folders.len() && is_inbox(self@.folders[i as int]),
                None => !has_inbox(self@.folders),
            },
            self.wf() && r is Some ==> r->0 == inbox_index(self@.folders),
    {
        let name = "Inbox".to_owned();
        let mut i: usize = 0;
        while i < self.folders.len()
            invariant
                i <= self.folders.len(),
                name@ == "Inbox"@,
                forall|j: int| 0 <= j < i ==> !is_inbox(#[trigger] self@.folders[j]),
            decreases self.folders.len() - i,
        {
            let f = &self.folders[i];
            assert(self@.folders[i as int] == f@);
            if f.parent_id.is_none() && f.name == name {
                return Some(i);
            }
            i += 1;
        }
        None
    }

    /// The id of the inbox, which is created under `new_id` at time `now` if
    /// there is none.
    ///
    /// Fails only where an inbox has to be created and `new_id` is taken;
    /// the store is then left as it was. After a success the store has
    /// exactly one inbox.
    pub fn ensure_inbox(&mut self, new_id: String, now: i64) -> (r: Result<String, StoreError>)
        requires
            old(self).wf(),
        ensures
            final(self).wf(),
            final(self)@.notes == old(self)@.notes,
            if !has_inbox(old(self)@.folders) && has_folder(old(self)@.folders, new_id@) {
                &&& r matches Err(e)
                &&& e == StoreError::DuplicateId
                &&& final(self)@ == old(self)@
            } else {
                &&& r matches Ok(got)
                &&& final(self)@ == with_inbox(old(self)@, new_id@, now)
                &&& got@ == inbox_id(final(self)@.folders)
                &&& one_inbox(final(self)@.folders)
                &&& !has_inbox(old(self)@.folders) ==> got@ == new_id@
            },
    {
        match self.find_inbox() {
            Some(i) => {
                assert(self@.folders[i as int] == self.folders@[i as int]@);
                proof {
                    lemma_one_inbox(self@.folders);
                }
                Ok(self.folders[i].id.clone())
            },
            None => {
                if self.find_folder(new_id.as_str()).is_some() {
                    return Err(StoreError::DuplicateId);
                }
                let got = new_id.clone();
                let f = Folder {
                    id: new_id,
                    name: "Inbox".to_owned(),
                    created_at: now,
                    updated_at: now,
                    parent_id: None,
                };
                proof {
                    let fs = self@.folders;
                    assert(!root_name_taken(fs, f@.name, f@.id)) by {
                        if root_name_taken(fs, f@.name, f@.id) {
                            let i = choose|i: int|
                                0 <= i < fs.len() && (#[trigger] fs[i]).parent_id is None
                                    && fs[i].name == f@.name && fs[i].id != f@.id;
                            assert(is_inbox(fs[i]));
                        }
                    }
                }
                self.put_folder(f);
                proof {
                    let fs = self@.folders;
                    let pos = crate::folders::age_slot(old(self)@.folders, now);
                    crate::folders::lemma_age_slot(old(self)@.folders, now);
                    old(self)@.folders.insert_ensures(pos, new_inbox(new_id@, now));
                    assert(is_inbox(fs[pos]));
                    lemma_one_inbox(fs);
                    assert(inbox_index(fs) == pos);
                }
                Ok(got)
            },
        }
    }

    /// Creates a note in the folder given, or in the inbox where none is
    /// given; the inbox is created under `inbox` if there is none. `id` is
    /// the new note's id and `now` the time of creation.
    ///
    /// A folder id that is given has to be a safe id of a folder that
    /// exists. On an error no note is created; an inbox that was created
    /// for the note stays.
    pub fn create_note(
        &mut self,
        id: String,
        title: String,
        body: String,
        folder_id: Option<String>,
        inbox: String,
        now: i64,
    ) -> (r: Result<Created, StoreError>)
        requires
            old(self).wf(),
        ensures
            final(self).wf(),
            match create_note_error(old(self)@, id@, opt_view(folder_id), inbox@, now) {
                Some(e) => {
                    &&& r matches Err(got)
                    &&& got == e
                    &&& final(self)@ == create_note_leaves(
                        old(self)@,
                        opt_view(folder_id),
                        inbox@,
                        now,
                        e,
                    )
                },
                None => {
                    &&& r matches Ok(c)
                    &&& c.id@ == id@
                    &&& c.folder_id@ == note_target(old(self)@, opt_view(folder_id), inbox@, now)
                    &&& c.created_at == now
                    &&& c.updated_at == now
                    &&& final(self)@ == filed(
                        note_stage(old(self)@, opt_view(folder_id), inbox@, now),
                        fresh_note(id@, c.folder_id@, title@, body@, now),
                    )
                },
            },
    {
        let target = match folder_id {
            Some(f) => {
                if !is_safe_id(f.as_str()) {
                    return Err(StoreError::InvalidFolderId);
                }
                f
            },
            None => {
                match self.ensure_inbox(inbox, now) {
                    Ok(f) => f,
                    Err(e) => {
                        return Err(e);
                    },
                }
            },
        };
        let note_id = id.clone();
        let folder = target.clone();
        match self.file_note(id, target, title, body, now) {
            Ok(()) => Ok(Created { id: note_id, folder_id: folder, created_at: now, updated_at: now }),
            Err(e) => Err(e),
        }
    }
}

} // verus!
