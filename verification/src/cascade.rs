//! Deleting a folder with all that lies below it.

use crate::flags::{
    count_unset, drop_flagged, lemma_count_unset_set, lemma_filter_members, lemma_filter_pairwise,
    lemma_unflagged_is_filter, unflagged,
};
use crate::forest::{
    acyclic, has_folder, index_of, lemma_index_in_range, lemma_index_of, lemma_under_absent,
    lemma_under_step, lemma_up_agree, parent_of, parents_exist, rooted, under, unique_ids, up,
};
use crate::model::{folder_views, note_views, Folder, FolderView, Note, NoteView};
use crate::store::{
    notes_filed, oldest_first, root_names_unique, store_wf, unique_note_ids, Store, StoreView,
};
use vstd::prelude::*;

verus! {

/// `s` without the folder `id`, the folders below it, and the notes filed in
/// any of them.
pub open spec fn without_subtree(s: StoreView, id: Seq<char>) -> StoreView {
    StoreView {
        folders: s.folders.filter(|f: FolderView| !under(s.folders, f.id, id)),
        notes: s.notes.filter(|n: NoteView| !under(s.folders, n.folder_id, id)),
    }
}

/// The views of what is left unflagged are what is left unflagged of the
/// views.
pub proof fn lemma_folder_views_unflagged(v: Seq<Folder>, flags: Seq<bool>)
    requires
        v.len() == flags.len(),
    ensures
        folder_views(unflagged(v, flags)) == unflagged(folder_views(v), flags),
    decreases v.len(),
{
    if v.len() > 0 {
        lemma_folder_views_unflagged(v.drop_first(), flags.drop_first());
        assert(folder_views(v).drop_first() =~= folder_views(v.drop_first()));
        assert(folder_views(unflagged(v, flags)) =~= unflagged(folder_views(v), flags));
    } else {
        assert(folder_views(unflagged(v, flags)) =~= unflagged(folder_views(v), flags));
    }
}

/// The views of what is left unflagged are what is left unflagged of the
/// views.
pub proof fn lemma_note_views_unflagged(v: Seq<Note>, flags: Seq<bool>)
    requires
        v.len() == flags.len(),
    ensures
        note_views(unflagged(v, flags)) == unflagged(note_views(v), flags),
    decreases v.len(),
{
    if v.len() > 0 {
        lemma_note_views_unflagged(v.drop_first(), flags.drop_first());
        assert(note_views(v).drop_first() =~= note_views(v.drop_first()));
        assert(note_views(unflagged(v, flags)) =~= unflagged(note_views(v), flags));
    } else {
        assert(note_views(unflagged(v, flags)) =~= unflagged(note_views(v), flags));
    }
}

/// Marks that hold the folder `id` and are closed under going from a parent
/// to its children hold every folder under `id`.
proof fn lemma_marks_complete(
    fs: Seq<FolderView>,
    marks: Seq<bool>,
    id: Seq<char>,
    j: int,
    k: nat,
)
    requires
        unique_ids(fs),
        parents_exist(fs),
        marks.len() == fs.len(),
        0 <= j < fs.len(),
        up(fs, fs[j].id, k) == Some(id),
        forall|a: int| 0 <= a < fs.len() && (#[trigger] fs[a]).id == id ==> marks[a],
        forall|a: int|
            0 <= a < fs.len() && !marks[a] ==> ((#[trigger] fs[a]).parent_id matches Some(p)
                ==> !marks[index_of(fs, p)]),
    ensures
        marks[j],
    decreases k,
{
    if fs[j].id != id {
        lemma_index_of(fs, j);
        let p = fs[j].parent_id->0;
        lemma_index_in_range(fs, p);
        let pi = index_of(fs, p);
        lemma_marks_complete(fs, marks, id, pi, (k - 1) as nat);
    }
}

/// A well-formed store is well formed without a folder and all below it.
pub proof fn lemma_without_subtree_wf(s: StoreView, id: Seq<char>)
    requires
        store_wf(s),
    ensures
        store_wf(without_subtree(s, id)),
        forall|x: Seq<char>|
            has_folder(without_subtree(s, id).folders, x) <==> has_folder(s.folders, x) && !under(
                s.folders,
                x,
                id,
            ),
{
    let fs = s.folders;
    let ns = s.notes;
    let fp = |f: FolderView| !under(fs, f.id, id);
    let np = |n: NoteView| !under(fs, n.folder_id, id);
    let new = fs.filter(fp);
    let nn = ns.filter(np);
    lemma_filter_members(fs, fp);
    lemma_filter_members(ns, np);
    assert forall|x: Seq<char>| has_folder(new, x) <==> has_folder(fs, x) && !under(fs, x, id) by {
        if has_folder(new, x) {
            let i = choose|i: int| 0 <= i < new.len() && (#[trigger] new[i]).id == x;
            assert(new.contains(new[i]));
            let j = choose|j: int| 0 <= j < fs.len() && fs[j] == new[i];
            assert(fs[j].id == x);
        }
        if has_folder(fs, x) && !under(fs, x, id) {
            let j = choose|j: int| 0 <= j < fs.len() && (#[trigger] fs[j]).id == x;
            assert(fs.contains(fs[j]));
            assert(new.contains(fs[j]));
            let i = choose|i: int| 0 <= i < new.len() && new[i] == fs[j];
            assert(new[i].id == x);
        }
    }
    lemma_filter_pairwise(fs, fp, |a: FolderView, b: FolderView| a.id != b.id);
    assert(unique_ids(new)) by {
        assert forall|i: int, j: int|
            0 <= i < new.len() && 0 <= j < new.len() && i != j implies (#[trigger] new[i]).id != (
            #[trigger] new[j]).id by {
            if i < j {
            } else {
                assert(new[j].id != new[i].id);
            }
        }
    }
    lemma_filter_pairwise(
        fs,
        fp,
        |a: FolderView, b: FolderView| a.created_at <= b.created_at,
    );
    assert(oldest_first(new));
    assert forall|i: int, j: int| 0 <= i < j < fs.len() implies !((#[trigger] fs[i]).parent_id is None
        && (#[trigger] fs[j]).parent_id is None && fs[i].name == fs[j].name) by {}
    lemma_filter_pairwise(
        fs,
        fp,
        |a: FolderView, b: FolderView| !(a.parent_id is None && b.parent_id is None && a.name == b.name),
    );
    assert(root_names_unique(new)) by {
        assert forall|i: int, j: int|
            0 <= i < new.len() && 0 <= j < new.len() && i != j && (#[trigger] new[i]).parent_id is None
                && (#[trigger] new[j]).parent_id is None implies new[i].name != new[j].name by {
            if i < j {
            } else {
                assert(!(new[j].parent_id is None && new[i].parent_id is None && new[j].name
                    == new[i].name));
            }
        }
    }
    assert forall|y: Seq<char>| !under(fs, y, id) implies parent_of(new, y) == parent_of(fs, y) && (
    parent_of(fs, y) matches Some(p) ==> !under(fs, p, id)) by {
        if has_folder(fs, y) {
            lemma_index_in_range(new, y);
            lemma_index_in_range(fs, y);
            let i = index_of(new, y);
            assert(new.contains(new[i]));
            let j = choose|j: int| 0 <= j < fs.len() && fs[j] == new[i];
            lemma_index_of(fs, j);
        }
        match parent_of(fs, y) {
            Some(p) => {
                if under(fs, p, id) {
                    lemma_under_step(fs, y, id);
                }
            },
            None => {},
        }
    }
    let keep = |y: Seq<char>| !under(fs, y, id);
    assert(parents_exist(new)) by {
        assert forall|i: int| 0 <= i < new.len() implies ((#[trigger] new[i]).parent_id matches Some(
            p,
        ) ==> has_folder(new, p)) by {
            assert(new.contains(new[i]));
            let j = choose|j: int| 0 <= j < fs.len() && fs[j] == new[i];
            lemma_index_of(fs, j);
            assert(keep(fs[j].id));
        }
    }
    assert(acyclic(new)) by {
        assert forall|i: int| 0 <= i < new.len() implies rooted(new, (#[trigger] new[i]).id) by {
            assert(new.contains(new[i]));
            let j = choose|j: int| 0 <= j < fs.len() && fs[j] == new[i];
            let y = fs[j].id;
            assert(rooted(fs, y));
            let k = choose|k: nat| up(fs, y, k) is None;
            lemma_up_agree(fs, new, keep, y, k);
        }
    }
    lemma_filter_pairwise(ns, np, |a: NoteView, b: NoteView| a.id != b.id);
    assert(unique_note_ids(nn)) by {
        assert forall|i: int, j: int|
            0 <= i < nn.len() && 0 <= j < nn.len() && i != j implies (#[trigger] nn[i]).id != (
            #[trigger] nn[j]).id by {
            if i < j {
            } else {
                assert(nn[j].id != nn[i].id);
            }
        }
    }
    assert(notes_filed(new, nn)) by {
        assert forall|i: int| 0 <= i < nn.len() implies has_folder(new, (#[trigger] nn[i]).folder_id) by {
            assert(nn.contains(nn[i]));
            let j = choose|j: int| 0 <= j < ns.len() && ns[j] == nn[i];
            assert(has_folder(fs, ns[j].folder_id));
        }
    }
}

impl Store {
    /// For each folder, whether it is `id` or lies below it.
    pub fn subtree_marks(&self, id: &str) -> (marks: Vec<bool>)
        requires
            self.wf(),
        ensures
            marks.len() == self@.folders.len(),
            forall|j: int|
                0 <= j < marks.len() ==> marks[j] == under(
                    self@.folders,
                    (#[trigger] self@.folders[j]).id,
                    id@,
                ),
    {
        let ghost fs = self@.folders;
        let n = self.folders.len();
        let mut marks: Vec<bool> = Vec::new();
        let mut i: usize = 0;
        while i < n
            invariant
                i <= n,
                marks.len() == i,
                forall|j: int| 0 <= j < i ==> !marks[j],
            decreases n - i,
        {
            marks.push(false);
            i += 1;
        }
        match self.find_folder(id) {
            Some(r) => {
                marks.set(r, true);
                assert(up(fs, fs[r as int].id, 0) == Some(id@));
            },
            None => {
                proof {
                    assert forall|j: int| 0 <= j < marks.len() implies !under(
                        fs,
                        (#[trigger] fs[j]).id,
                        id@,
                    ) by {
                        assert forall|k: nat| up(fs, fs[j].id, k) != Some(id@) by {
                            lemma_under_absent(fs, fs[j].id, id@, k);
                        }
                    }
                }
                return marks;
            },
        }
        let mut changed = true;
        while changed
            invariant
                self.wf(),
                fs == self@.folders,
                n == self.folders.len(),
                marks.len() == n,
                forall|a: int| 0 <= a < n && (#[trigger] fs[a]).id == id@ ==> marks[a],
                forall|a: int| 0 <= a < n && marks[a] ==> under(fs, (#[trigger] fs[a]).id, id@),
                !changed ==> forall|a: int|
                    0 <= a < n && !marks[a] ==> ((#[trigger] fs[a]).parent_id matches Some(p)
                        ==> !marks[index_of(fs, p)]),
            decreases
                    count_unset(marks@) + if changed {
                        1nat
                    } else {
                        0nat
                    },
        {
            changed = false;
            let ghost before = marks@;
            let mut j: usize = 0;
            while j < n
                invariant
                    self.wf(),
                    fs == self@.folders,
                    n == self.folders.len(),
                    marks.len() == n,
                    j <= n,
                    forall|a: int| 0 <= a < n && (#[trigger] fs[a]).id == id@ ==> marks[a],
                    forall|a: int|
                        0 <= a < n && marks[a] ==> under(fs, (#[trigger] fs[a]).id, id@),
                    !changed ==> marks@ == before,
                    !changed ==> forall|a: int|
                        0 <= a < j && !marks[a] ==> ((#[trigger] fs[a]).parent_id matches Some(p)
                            ==> !marks[index_of(fs, p)]),
                    changed ==> count_unset(marks@) < count_unset(before),
                decreases n - j,
            {
                assert(fs[j as int] == self.folders@[j as int]@);
                if !marks[j] {
                    match &self.folders[j].parent_id {
                        Some(p) => {
                            match self.find_folder(p.as_str()) {
                                Some(pi) => {
                                    if marks[pi] {
                                        proof {
                                            lemma_count_unset_set(marks@, j as int);
                                            lemma_index_of(fs, j as int);
                                            lemma_under_step(fs, fs[j as int].id, id@);
                                        }
                                        marks.set(j, true);
                                        changed = true;
                                    }
                                },
                                None => {},
                            }
                        },
                        None => {},
                    }
                }
                j += 1;
            }
        }
        proof {
            assert forall|j: int| 0 <= j < marks.len() implies marks[j] == under(
                fs,
                (#[trigger] fs[j]).id,
                id@,
            ) by {
                if under(fs, fs[j].id, id@) {
                    let k = choose|k: nat| up(fs, fs[j].id, k) == Some(id@);
                    lemma_marks_complete(fs, marks@, id@, j, k);
                }
            }
        }
        marks
    }

    /// Deletes the folder, every folder below it, and every note filed in
    /// any of them. An id that no folder has deletes nothing.
    pub fn delete_folder(&mut self, id: &str)
        requires
            old(self).wf(),
        ensures
            final(self).wf(),
            final(self)@ == without_subtree(old(self)@, id@),
    {
        let ghost fs = self@.folders;
        let ghost ns = self@.notes;
        let marks = self.subtree_marks(id);
        let mut flags: Vec<bool> = Vec::new();
        let mut i: usize = 0;
        while i < self.notes.len()
            invariant
                self.wf(),
                fs == self@.folders,
                ns == self@.notes,
                i <= self.notes.len(),
                flags.len() == i,
                marks.len() == fs.len(),
                forall|j: int|
                    0 <= j < marks.len() ==> marks[j] == under(fs, (#[trigger] fs[j]).id, id@),
                forall|a: int|
                    0 <= a < i ==> flags[a] == under(fs, (#[trigger] ns[a]).folder_id, id@),
            decreases self.notes.len() - i,
        {
            assert(ns[i as int] == self.notes@[i as int]@);
            let flag = match self.find_folder(self.notes[i].folder_id.as_str()) {
                Some(fi) => marks[fi],
                None => false,
            };
            flags.push(flag);
            i += 1;
        }
        proof {
            lemma_folder_views_unflagged(self.folders@, marks@);
            lemma_note_views_unflagged(self.notes@, flags@);
            lemma_unflagged_is_filter(fs, marks@, |f: FolderView| !under(fs, f.id, id@));
            lemma_unflagged_is_filter(ns, flags@, |n: NoteView| !under(fs, n.folder_id, id@));
            lemma_without_subtree_wf(self@, id@);
        }
        drop_flagged(&mut self.folders, &marks);
        drop_flagged(&mut self.notes, &flags);
    }
}

} // verus!
