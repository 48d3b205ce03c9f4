//! The store: folders and notes held together with the rules that keep them
//! consistent.

use crate::forest::{acyclic, has_folder, index_of, lemma_index_of, parents_exist, unique_ids};
use crate::model::{
    folder_views, lemma_folder_views_push, note_views, Folder, FolderView, Note, NoteView,
};
use vstd::prelude::*;

verus! {

/// The folders and notes of one user.
#[derive(Debug, PartialEq, Eq)]
pub struct Store {
    pub(crate) folders: Vec<Folder>,
    pub(crate) notes: Vec<Note>,
}

/// What a store holds, as mathematical values: the folders oldest first, the
/// notes in the order in which they were filed.
pub struct StoreView {
    pub folders: Seq<FolderView>,
    pub notes: Seq<NoteView>,
}

impl View for Store {
    type V = StoreView;

    open(crate) spec fn view(&self) -> StoreView {
        StoreView { folders: folder_views(self.folders@), notes: note_views(self.notes@) }
    }
}

/// Some note of `ns` has the id.
pub open spec fn has_note(ns: Seq<NoteView>, id: Seq<char>) -> bool {
    exists|i: int| 0 <= i < ns.len() && (#[trigger] ns[i]).id == id
}

/// The place in `ns` of a note with the id, where there is one.
pub open spec fn note_index(ns: Seq<NoteView>, id: Seq<char>) -> int {
    choose|i: int| 0 <= i < ns.len() && (#[trigger] ns[i]).id == id
}

/// No two notes share an id.
pub open spec fn unique_note_ids(ns: Seq<NoteView>) -> bool {
    forall|i: int, j: int|
        0 <= i < ns.len() && 0 <= j < ns.len() && i != j ==> (#[trigger] ns[i]).id != (
        #[trigger] ns[j]).id
}

/// Every note is filed in a folder of `fs`.
pub open spec fn notes_filed(fs: Seq<FolderView>, ns: Seq<NoteView>) -> bool {
    forall|i: int| 0 <= i < ns.len() ==> has_folder(fs, (#[trigger] ns[i]).folder_id)
}

/// The folders stand in the order of their creation, oldest first.
pub open spec fn oldest_first(fs: Seq<FolderView>) -> bool {
    forall|i: int, j: int|
        0 <= i < j < fs.len() ==> (#[trigger] fs[i]).created_at <= (#[trigger] fs[j]).created_at
}

/// Some root-level folder of `fs` other than the one with id `except` has
/// the name.
pub open spec fn root_name_taken(fs: Seq<FolderView>, name: Seq<char>, except: Seq<char>) -> bool {
    exists|i: int|
        0 <= i < fs.len() && (#[trigger] fs[i]).parent_id is None && fs[i].name == name && fs[i].id
            != except
}

/// No two root-level folders share a name.
pub open spec fn root_names_unique(fs: Seq<FolderView>) -> bool {
    forall|i: int, j: int|
        0 <= i < fs.len() && 0 <= j < fs.len() && i != j && (#[trigger] fs[i]).parent_id is None
            && (#[trigger] fs[j]).parent_id is None ==> fs[i].name != fs[j].name
}

/// The rules that every store keeps.
pub open spec fn store_wf(s: StoreView) -> bool {
    &&& unique_ids(s.folders)
    &&& parents_exist(s.folders)
    &&& acyclic(s.folders)
    &&& oldest_first(s.folders)
    &&& root_names_unique(s.folders)
    &&& unique_note_ids(s.notes)
    &&& notes_filed(s.folders, s.notes)
}

impl Store {
    /// The rules hold of this store.
    pub open spec fn wf(&self) -> bool {
        store_wf(self@)
    }

    /// A store without folders and notes.
    pub fn new() -> (s: Store)
        ensures
            s.wf(),
            s@.folders.len() == 0,
            s@.notes.len() == 0,
    {
        Store { folders: Vec::new(), notes: Vec::new() }
    }

    /// The place of the folder with the id.
    pub fn find_folder(&self, id: &str) -> (r: Option<usize>)
        ensures
            match r {
                Some(i) => i < self@.folders.len() && self@.folders[i as int].id == id@,
                None => !has_folder(self@.folders, id@),
            },
            self.wf() && r is Some ==> r->0 == index_of(self@.folders, id@),
    {
        let key = id.to_owned();
        let mut i: usize = 0;
        while i < self.folders.len()
            invariant
                i <= self.folders.len(),
                key@ == id@,
                forall|j: int| 0 <= j < i ==> (#[trigger] self@.folders[j]).id != id@,
            decreases self.folders.len() - i,
        {
            if self.folders[i].id == key {
                proof {
                    if self.wf() {
                        lemma_index_of(self@.folders, i as int);
                    }
                }
                return Some(i);
            }
            i += 1;
        }
        None
    }

    /// The place of the note with the id.
    pub fn find_note(&self, id: &str) -> (r: Option<usize>)
        ensures
            match r {
                Some(i) => i < self@.notes.len() && self@.notes[i as int].id == id@,
                None => !has_note(self@.notes, id@),
            },
            self.wf() && r is Some ==> r->0 == note_index(self@.notes, id@),
    {
        let key = id.to_owned();
        let mut i: usize = 0;
        while i < self.notes.len()
            invariant
                i <= self.notes.len(),
                key@ == id@,
                forall|j: int| 0 <= j < i ==> (#[trigger] self@.notes[j]).id != id@,
            decreases self.notes.len() - i,
        {
            if self.notes[i].id == key {
                assert(self@.notes[i as int].id == id@);
                return Some(i);
            }
            i += 1;
        }
        None
    }

    /// The folders, oldest first.
    pub fn list_folders(&self) -> (r: Vec<Folder>)
        ensures
            folder_views(r@) == self@.folders,
            self.wf() ==> oldest_first(folder_views(r@)),
    {
        let mut out: Vec<Folder> = Vec::new();
        let mut i: usize = 0;
        while i < self.folders.len()
            invariant
                i <= self.folders.len(),
                folder_views(out@) == self@.folders.take(i as int),
            decreases self.folders.len() - i,
        {
            let f = self.folders[i].clone();
            proof {
                lemma_folder_views_push(out@, f);
            }
            out.push(f);
            assert(folder_views(out@) =~= self@.folders.take(i + 1));
            i += 1;
        }
        assert(self@.folders.take(i as int) =~= self@.folders);
        out
    }
}

} // verus!
