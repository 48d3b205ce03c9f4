//! Bulk import: folders and notes come in unless their id is already there.

use crate::folders::{age_slot, lemma_age_slot_range, with_folder};
use crate::forest::has_folder;
use crate::model::{
    folder_views, lemma_note_views_push, note_views, Folder, FolderView, Note, NoteView,
    StoreError,
};
use crate::store::{has_note, root_name_taken, Store, StoreView};
use vstd::prelude::*;

verus! {

/// The folders after `f` was offered: `f` is passed over where its id is
/// taken or where it is a root-level folder whose name another root-level
/// folder has; else its parent, where it names one, has to be another
/// folder that is there.
pub open spec fn import_folder(fs: Seq<FolderView>, f: FolderView) -> Result<
    Seq<FolderView>,
    StoreError,
> {
    if has_folder(fs, f.id) {
        Ok(fs)
    } else if f.parent_id is None && root_name_taken(fs, f.name, f.id) {
        Ok(fs)
    } else if f.parent_id == Some(f.id) {
        Err(StoreError::SelfParent)
    } else if f.parent_id is Some && !has_folder(fs, f.parent_id->0) {
        Err(StoreError::ParentNotFound)
    } else {
        Ok(with_folder(fs, f))
    }
}

/// The folders after those of `incoming` were offered in order.
pub open spec fn import_folders(fs: Seq<FolderView>, incoming: Seq<FolderView>) -> Result<
    Seq<FolderView>,
    StoreError,
>
    decreases incoming.len(),
{
    if incoming.len() == 0 {
        Ok(fs)
    } else {
        match import_folders(fs, incoming.drop_last()) {
            Ok(mid) => import_folder(mid, incoming.last()),
            Err(e) => Err(e),
        }
    }
}

/// The notes after `n` was offered: `n` is passed over where its id is
/// taken; else its folder has to be there.
pub open spec fn import_note(fs: Seq<FolderView>, ns: Seq<NoteView>, n: NoteView) -> Result<
    Seq<NoteView>,
    StoreError,
> {
    if has_note(ns, n.id) {
        Ok(ns)
    } else if !has_folder(fs, n.folder_id) {
        Err(StoreError::FolderNotFound)
    } else {
        Ok(ns.push(n))
    }
}

/// The notes after those of `incoming` were offered in order.
pub open spec fn import_notes(
    fs: Seq<FolderView>,
    ns: Seq<NoteView>,
    incoming: Seq<NoteView>,
) -> Result<Seq<NoteView>, StoreError>
    decreases incoming.len(),
{
    if incoming.len() == 0 {
        Ok(ns)
    } else {
        match import_notes(fs, ns, incoming.drop_last()) {
            Ok(mid) => import_note(fs, mid, incoming.last()),
            Err(e) => Err(e),
        }
    }
}

/// The store after the folders and then the notes were offered.
pub open spec fn imported(s: StoreView, folders: Seq<FolderView>, notes: Seq<NoteView>) -> Result<
    StoreView,
    StoreError,
> {
    match import_folders(s.folders, folders) {
        Ok(fs) => match import_notes(fs, s.notes, notes) {
            Ok(ns) => Ok(StoreView { folders: fs, notes: ns }),
            Err(e) => Err(e),
        },
        Err(e) => Err(e),
    }
}

impl Clone for Store {
    fn clone(&self) -> (r: Store)
        ensures
            r@ == self@,
    {
        Store { folders: self.list_folders(), notes: self.get_notes_all() }
    }
}

impl Store {
    /// Offers one folder.
    pub(crate) fn offer_folder(&mut self, f: &Folder) -> (r: Result<(), StoreError>)
        requires
            old(self).wf(),
        ensures
            final(self).wf(),
            final(self)@.notes == old(self)@.notes,
            match import_folder(old(self)@.folders, f@) {
                Ok(fs) => r is Ok && final(self)@.folders == fs,
                Err(e) => r == Err::<(), StoreError>(e) && final(self)@ == old(self)@,
            },
    {
        if self.find_folder(f.id.as_str()).is_some() {
            return Ok(());
        }
        match &f.parent_id {
            None => {
                if self.root_name_in_use(f.name.as_str(), f.id.as_str()) {
                    return Ok(());
                }
            },
            Some(p) => {
                if *p == f.id {
                    return Err(StoreError::SelfParent);
                }
                if self.find_folder(p.as_str()).is_none() {
                    return Err(StoreError::ParentNotFound);
                }
            },
        }
        self.put_folder(f.clone());
        Ok(())
    }

    /// Offers one note.
    pub(crate) fn offer_note(&mut self, n: &Note) -> (r: Result<(), StoreError>)
        requires
            old(self).wf(),
        ensures
            final(self).wf(),
            final(self)@.folders == old(self)@.folders,
            match import_note(old(self)@.folders, old(self)@.notes, n@) {
                Ok(ns) => r is Ok && final(self)@.notes == ns,
                Err(e) => r == Err::<(), StoreError>(e) && final(self)@ == old(self)@,
            },
    {
        if self.find_note(n.id.as_str()).is_some() {
            return Ok(());
        }
        if self.find_folder(n.folder_id.as_str()).is_none() {
            return Err(StoreError::FolderNotFound);
        }
        let copy = n.clone();
        proof {
            lemma_note_views_push(self.notes@, copy);
            let ns = self@.notes;
            let new = ns.push(copy@);
            assert forall|a: int, b: int|
                0 <= a < new.len() && 0 <= b < new.len() && a != b implies (#[trigger] new[a]).id != (
                #[trigger] new[b]).id by {
                if a < ns.len() {
                    assert(new[a] == ns[a]);
                }
                if b < ns.len() {
                    assert(new[b] == ns[b]);
                }
            }
            assert forall|a: int| 0 <= a < new.len() implies has_folder(
                self@.folders,
                (#[trigger] new[a]).folder_id,
            ) by {
                if a < ns.len() {
                    assert(new[a] == ns[a]);
                }
            }
        }
        self.notes.push(copy);
        Ok(())
    }

    /// Takes in folders and notes in bulk. What comes in under an id that
    /// is taken is passed over, and what is there stays untouched.
    ///
    /// The folders are offered first, in order, then the notes. A folder
    /// that names a parent needs one that is there when it is offered, and a
    /// note needs its folder. On an error the store is left as it was.
    pub fn import(&mut self, folders: &Vec<Folder>, notes: &Vec<Note>) -> (r: Result<
        (),
        StoreError,
    >)
        requires
            old(self).wf(),
        ensures
            final(self).wf(),
            match imported(old(self)@, folder_views(folders@), note_views(notes@)) {
                Ok(s) => r is Ok && final(self)@ == s,
                Err(e) => r == Err::<(), StoreError>(e) && final(self)@ == old(self)@,
            },
    {
        let backup = self.clone();
        let ghost fin = folder_views(folders@);
        let ghost nin = note_views(notes@);
        let mut i: usize = 0;
        assert(fin.take(0).len() == 0);
        while i < folders.len()
            invariant
                i <= folders.len(),
                fin == folder_views(folders@),
                self.wf(),
                old(self).wf(),
                backup@ == old(self)@,
                self@.notes == old(self)@.notes,
                import_folders(old(self)@.folders, fin.take(i as int)) == Ok::<
                    Seq<FolderView>,
                    StoreError,
                >(self@.folders),
            decreases folders.len() - i,
        {
            proof {
                let head = fin.take(i + 1);
                assert(head.drop_last() =~= fin.take(i as int));
                assert(head.last() == folders@[i as int]@);
                assert(import_folders(old(self)@.folders, head) == import_folder(
                    self@.folders,
                    folders@[i as int]@,
                ));
                assert(fin.take(folders.len() as int) =~= fin);
                lemma_import_folders_fails(old(self)@.folders, fin, i + 1);
            }
            match self.offer_folder(&folders[i]) {
                Ok(()) => {},
                Err(e) => {
                    *self = backup;
                    return Err(e);
                },
            }
            i += 1;
        }
        assert(fin.take(i as int) =~= fin);
        let ghost fs = self@.folders;
        let mut k: usize = 0;
        assert(nin.take(0).len() == 0);
        while k < notes.len()
            invariant
                k <= notes.len(),
                nin == note_views(notes@),
                fin == folder_views(folders@),
                self.wf(),
                old(self).wf(),
                backup@ == old(self)@,
                self@.folders == fs,
                import_folders(old(self)@.folders, fin) == Ok::<Seq<FolderView>, StoreError>(fs),
                import_notes(fs, old(self)@.notes, nin.take(k as int)) == Ok::<
                    Seq<NoteView>,
                    StoreError,
                >(self@.notes),
            decreases notes.len() - k,
        {
            proof {
                let head = nin.take(k + 1);
                assert(head.drop_last() =~= nin.take(k as int));
                assert(head.last() == notes@[k as int]@);
                assert(import_notes(fs, old(self)@.notes, head) == import_note(
                    fs,
                    self@.notes,
                    notes@[k as int]@,
                ));
                assert(nin.take(notes.len() as int) =~= nin);
                lemma_import_notes_fails(fs, old(self)@.notes, nin, k + 1);
            }
            match self.offer_note(&notes[k]) {
                Ok(()) => {},
                Err(e) => {
                    *self = backup;
                    return Err(e);
                },
            }
            k += 1;
        }
        assert(nin.take(k as int) =~= nin);
        Ok(())
    }
}

/// An import of folders that fails on a start of the batch fails on the
/// whole batch, with the same error.
pub proof fn lemma_import_folders_fails(fs: Seq<FolderView>, incoming: Seq<FolderView>, upto: int)
    requires
        0 <= upto <= incoming.len(),
    ensures
        import_folders(fs, incoming.take(upto)) matches Err(e) ==> import_folders(fs, incoming)
            == Err::<Seq<FolderView>, StoreError>(e),
    decreases incoming.len(),
{
    if upto < incoming.len() {
        assert(incoming.drop_last().take(upto) =~= incoming.take(upto));
        lemma_import_folders_fails(fs, incoming.drop_last(), upto);
    } else {
        assert(incoming.take(upto) =~= incoming);
    }
}

/// An import of notes that fails on a start of the batch fails on the whole
/// batch, with the same error.
pub proof fn lemma_import_notes_fails(
    fs: Seq<FolderView>,
    ns: Seq<NoteView>,
    incoming: Seq<NoteView>,
    upto: int,
)
    requires
        0 <= upto <= incoming.len(),
    ensures
        import_notes(fs, ns, incoming.take(upto)) matches Err(e) ==> import_notes(fs, ns, incoming)
            == Err::<Seq<NoteView>, StoreError>(e),
    decreases incoming.len(),
{
    if upto < incoming.len() {
        assert(incoming.drop_last().take(upto) =~= incoming.take(upto));
        lemma_import_notes_fails(fs, ns, incoming.drop_last(), upto);
    } else {
        assert(incoming.take(upto) =~= incoming);
    }
}

/// `t` holds every folder of `s`, each as it is in `s`.
pub open spec fn holds_folders(t: Seq<FolderView>, s: Seq<FolderView>) -> bool {
    forall|i: int| 0 <= i < s.len() ==> t.contains(#[trigger] s[i])
}

/// `t` holds a note under every id under which `s` holds one.
pub open spec fn holds_note_ids(t: Seq<NoteView>, s: Seq<NoteView>) -> bool {
    forall|i: int| 0 <= i < s.len() ==> has_note(t, (#[trigger] s[i]).id)
}

/// A folder that was offered with success is passed over when it is
/// offered again, and what was there before is still there.
proof fn lemma_offer_folder_grows(fs: Seq<FolderView>, f: FolderView)
    ensures
        import_folder(fs, f) matches Ok(g) ==> holds_folders(g, fs) && (has_folder(g, f.id) || (
        f.parent_id is None && root_name_taken(g, f.name, f.id))),
{
    if import_folder(fs, f) is Ok {
        let g = import_folder(fs, f)->Ok_0;
        if has_folder(fs, f.id) || (f.parent_id is None && root_name_taken(fs, f.name, f.id)) {
            assert(g == fs);
            assert forall|i: int| 0 <= i < fs.len() implies g.contains(#[trigger] fs[i]) by {
                assert(g[i] == fs[i]);
            }
        } else {
            assert(g == with_folder(fs, f));
            let pos = age_slot(fs, f.created_at);
            lemma_age_slot_range(fs, f.created_at);
            fs.insert_ensures(pos, f);
            assert forall|i: int| 0 <= i < fs.len() implies g.contains(#[trigger] fs[i]) by {
                if i < pos {
                    assert(g[i] == fs[i]);
                } else {
                    assert(g[i + 1] == fs[i]);
                }
            }
            assert(g[pos].id == f.id);
        }
    }
}

/// What a store that holds the folders of `g` does with a folder that `g`
/// has taken in or passed over: it passes it over.
proof fn lemma_offer_folder_absorbed(g: Seq<FolderView>, t: Seq<FolderView>, f: FolderView)
    requires
        holds_folders(t, g),
        has_folder(g, f.id) || (f.parent_id is None && root_name_taken(g, f.name, f.id)),
    ensures
        import_folder(t, f) == Ok::<Seq<FolderView>, StoreError>(t),
{
    if has_folder(g, f.id) {
        let i = choose|i: int| 0 <= i < g.len() && (#[trigger] g[i]).id == f.id;
        assert(t.contains(g[i]));
        let j = choose|j: int| 0 <= j < t.len() && t[j] == g[i];
        assert(t[j].id == f.id);
    } else {
        let i = choose|i: int|
            0 <= i < g.len() && (#[trigger] g[i]).parent_id is None && g[i].name == f.name
                && g[i].id != f.id;
        assert(t.contains(g[i]));
        let j = choose|j: int| 0 <= j < t.len() && t[j] == g[i];
        assert(t[j].parent_id is None && t[j].name == f.name && t[j].id != f.id);
    }
}

/// A store that holds the folders that an import has led to passes the
/// whole batch over.
proof fn lemma_import_folders_absorbed(
    fs: Seq<FolderView>,
    incoming: Seq<FolderView>,
    t: Seq<FolderView>,
)
    requires
        import_folders(fs, incoming) matches Ok(g) && holds_folders(t, g),
    ensures
        import_folders(t, incoming) == Ok::<Seq<FolderView>, StoreError>(t),
    decreases incoming.len(),
{
    if incoming.len() > 0 {
        let init = incoming.drop_last();
        let f = incoming.last();
        let mid = import_folders(fs, init)->Ok_0;
        let g = import_folder(mid, f)->Ok_0;
        lemma_offer_folder_grows(mid, f);
        assert(holds_folders(t, mid)) by {
            assert forall|i: int| 0 <= i < mid.len() implies t.contains(#[trigger] mid[i]) by {
                assert(g.contains(mid[i]));
                let j = choose|j: int| 0 <= j < g.len() && g[j] == mid[i];
                assert(t.contains(g[j]));
            }
        }
        lemma_import_folders_absorbed(fs, init, t);
        lemma_offer_folder_absorbed(g, t, f);
    }
}

/// A store that holds a note under every id that an import has led to
/// passes the whole batch over.
proof fn lemma_import_notes_absorbed(
    fs: Seq<FolderView>,
    ns: Seq<NoteView>,
    incoming: Seq<NoteView>,
    fs2: Seq<FolderView>,
    t: Seq<NoteView>,
)
    requires
        import_notes(fs, ns, incoming) matches Ok(g) && holds_note_ids(t, g),
    ensures
        import_notes(fs2, t, incoming) == Ok::<Seq<NoteView>, StoreError>(t),
    decreases incoming.len(),
{
    if incoming.len() > 0 {
        let init = incoming.drop_last();
        let n = incoming.last();
        let mid = import_notes(fs, ns, init)->Ok_0;
        let g = import_note(fs, mid, n)->Ok_0;
        assert(holds_note_ids(t, mid)) by {
            assert forall|i: int| 0 <= i < mid.len() implies has_note(t, (#[trigger] mid[i]).id) by {
                assert(g[i] == mid[i]);
            }
        }
        lemma_import_notes_absorbed(fs, ns, init, fs2, t);
        assert(has_note(t, n.id)) by {
            if has_note(mid, n.id) {
                let i = choose|i: int| 0 <= i < mid.len() && (#[trigger] mid[i]).id == n.id;
                assert(g[i] == mid[i]);
            } else {
                assert(g[mid.len() as int] == n);
            }
        }
    }
}

/// An import is idempotent: a batch that was taken in, when it is offered
/// again, leaves the store as the first import left it.
pub proof fn lemma_import_idempotent(s: StoreView, folders: Seq<FolderView>, notes: Seq<NoteView>)
    ensures
        imported(s, folders, notes) matches Ok(t) ==> imported(t, folders, notes) == Ok::<
            StoreView,
            StoreError,
        >(t),
{
    if imported(s, folders, notes) is Ok {
        let t = imported(s, folders, notes)->Ok_0;
        assert(holds_folders(t.folders, t.folders)) by {
            assert forall|i: int| 0 <= i < t.folders.len() implies t.folders.contains(
                #[trigger] t.folders[i],
            ) by {}
        }
        lemma_import_folders_absorbed(s.folders, folders, t.folders);
        assert(holds_note_ids(t.notes, t.notes)) by {
            assert forall|i: int| 0 <= i < t.notes.len() implies has_note(
                t.notes,
                (#[trigger] t.notes[i]).id,
            ) by {}
        }
        lemma_import_notes_absorbed(t.folders, s.notes, notes, t.folders, t.notes);
    }
}

/// An import of folders fails only on a folder that names itself or a
/// folder that is not there as its parent.
pub proof fn lemma_import_folders_errors(fs: Seq<FolderView>, incoming: Seq<FolderView>)
    ensures
        import_folders(fs, incoming) matches Err(e) ==> e == StoreError::SelfParent || e
            == StoreError::ParentNotFound,
    decreases incoming.len(),
{
    if incoming.len() > 0 {
        lemma_import_folders_errors(fs, incoming.drop_last());
    }
}

/// An import of notes fails only on a note whose folder is not there.
pub proof fn lemma_import_notes_errors(
    fs: Seq<FolderView>,
    ns: Seq<NoteView>,
    incoming: Seq<NoteView>,
)
    ensures
        import_notes(fs, ns, incoming) matches Err(e) ==> e == StoreError::FolderNotFound,
    decreases incoming.len(),
{
    if incoming.len() > 0 {
        lemma_import_notes_errors(fs, ns, incoming.drop_last());
    }
}

} // verus!
