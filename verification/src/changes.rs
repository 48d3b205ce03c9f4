//! What has to be written to bring a file from one store to another.
//!
//! The file is seen as two tables, one of folders and one of notes, each
//! keyed by id. A change deletes one row or puts one row in, in place of the
//! row with its id if there is one.

use crate::flags::{count_unset, lemma_count_unset_set};
use crate::folders::folder_of;
use crate::forest::{
    has_folder, index_of, lemma_chain_bound, lemma_index_in_range, lemma_index_of, parent_of,
    rooted, unique_ids, up,
};
use crate::model::{Folder, FolderView, Note, NoteView};
use crate::notes::lemma_note_index;
use crate::store::{has_note, note_index, Store, StoreView};
use vstd::prelude::*;

verus! {

/// One change to the tables.
#[derive(Debug, PartialEq, Eq)]
pub enum Change {
    DeleteNote(String),
    DeleteFolder(String),
    PutFolder(Folder),
    PutNote(Note),
}

/// What a change holds, as mathematical values.
pub enum ChangeView {
    DeleteNote(Seq<char>),
    DeleteFolder(Seq<char>),
    PutFolder(FolderView),
    PutNote(NoteView),
}

impl View for Change {
    type V = ChangeView;

    open spec fn view(&self) -> ChangeView {
        match self {
            Change::DeleteNote(id) => ChangeView::DeleteNote(id@),
            Change::DeleteFolder(id) => ChangeView::DeleteFolder(id@),
            Change::PutFolder(f) => ChangeView::PutFolder(f@),
            Change::PutNote(n) => ChangeView::PutNote(n@),
        }
    }
}

/// The views of the changes of `v`, in order.
pub open spec fn change_views(v: Seq<Change>) -> Seq<ChangeView> {
    Seq::new(v.len(), |i: int| v[i]@)
}

/// The two tables of a file.
pub struct Tables {
    pub folders: Map<Seq<char>, FolderView>,
    pub notes: Map<Seq<char>, NoteView>,
}

/// The note with the id, where there is one.
pub open spec fn note_of(ns: Seq<NoteView>, id: Seq<char>) -> NoteView {
    ns[note_index(ns, id)]
}

/// The tables that hold the folders and notes of `s`.
pub open spec fn tables_of(s: StoreView) -> Tables {
    Tables {
        folders: Map::new(|id: Seq<char>| has_folder(s.folders, id), |id: Seq<char>| folder_of(s.folders, id)),
        notes: Map::new(|id: Seq<char>| has_note(s.notes, id), |id: Seq<char>| note_of(s.notes, id)),
    }
}

/// The tables after one change.
pub open spec fn replay(t: Tables, c: ChangeView) -> Tables {
    match c {
        ChangeView::DeleteNote(id) => Tables { folders: t.folders, notes: t.notes.remove(id) },
        ChangeView::DeleteFolder(id) => Tables { folders: t.folders.remove(id), notes: t.notes },
        ChangeView::PutFolder(f) => Tables { folders: t.folders.insert(f.id, f), notes: t.notes },
        ChangeView::PutNote(n) => Tables { folders: t.folders, notes: t.notes.insert(n.id, n) },
    }
}

/// The tables after the changes of `cs`, made in order.
pub open spec fn replay_all(t: Tables, cs: Seq<ChangeView>) -> Tables
    decreases cs.len(),
{
    if cs.len() == 0 {
        t
    } else {
        replay(replay_all(t, cs.drop_last()), cs.last())
    }
}

/// No folder is deleted before a folder that names it as its parent is.
pub open spec fn children_go_first(fs: Seq<FolderView>, cs: Seq<ChangeView>) -> bool {
    forall|a: int, b: int|
        0 <= a < b < cs.len() && (#[trigger] cs[a]) is DeleteFolder && (
        #[trigger] cs[b]) is DeleteFolder ==> parent_of(fs, cs[b]->DeleteFolder_0) != Some(
            cs[a]->DeleteFolder_0,
        )
}

/// Every row that is deleted is deleted before any row is put in.
pub open spec fn deletes_go_first(cs: Seq<ChangeView>) -> bool {
    forall|a: int, b: int|
        0 <= a < b < cs.len() && ((#[trigger] cs[b]) is DeleteFolder || cs[b] is DeleteNote) ==> ((
        #[trigger] cs[a]) is DeleteFolder || cs[a] is DeleteNote)
}

/// One change more is replayed after the others.
proof fn lemma_replay_push(t: Tables, v: Seq<Change>, c: Change)
    ensures
        change_views(v.push(c)) == change_views(v).push(c@),
        replay_all(t, change_views(v.push(c))) == replay(replay_all(t, change_views(v)), c@),
{
    assert(change_views(v.push(c)) =~= change_views(v).push(c@));
    assert(change_views(v).push(c@).drop_last() =~= change_views(v));
}

/// Where every folder that is still to be deleted has a child that is
/// still to be deleted, chains of any length lead to such folders: there is
/// one that is reached from another in `k` steps.
proof fn lemma_pending_descends(fs: Seq<FolderView>, settled: Seq<bool>, j: int, k: nat) -> (y: int)
    requires
        unique_ids(fs),
        settled.len() == fs.len(),
        0 <= j < fs.len(),
        !settled[j],
        forall|a: int|
            0 <= a < fs.len() && !settled[a] ==> exists|c: int|
                0 <= c < fs.len() && !settled[c] && (#[trigger] fs[c]).parent_id == Some(fs[a].id),
    ensures
        0 <= y < fs.len(),
        !settled[y],
        up(fs, fs[y].id, k) == Some(fs[j].id),
    decreases k,
{
    if k == 0 {
        j
    } else {
        let z = lemma_pending_descends(fs, settled, j, (k - 1) as nat);
        let c = choose|c: int|
            0 <= c < fs.len() && !settled[c] && (#[trigger] fs[c]).parent_id == Some(fs[z].id);
        lemma_index_of(fs, c);
        assert(up(fs, fs[c].id, k) == up(fs, fs[z].id, (k - 1) as nat));
        c
    }
}

impl Store {
    /// Whether a folder that is not settled names the folder at place `j`
    /// as its parent.
    pub fn has_pending_child(&self, settled: &Vec<bool>, j: usize) -> (r: bool)
        requires
            settled.len() == self@.folders.len(),
            j < self@.folders.len(),
        ensures
            r == exists|c: int|
                0 <= c < self@.folders.len() && !settled[c] && (#[trigger] self@.folders[c]).parent_id
                    == Some(self@.folders[j as int].id),
    {
        let ghost fs = self@.folders;
        let mut k: usize = 0;
        while k < self.folders.len()
            invariant
                k <= self.folders.len(),
                fs == self@.folders,
                settled.len() == fs.len(),
                j < fs.len(),
                forall|c: int|
                    0 <= c < k ==> !(!settled[c] && (#[trigger] fs[c]).parent_id == Some(
                        fs[j as int].id,
                    )),
            decreases self.folders.len() - k,
        {
            assert(fs[k as int] == self.folders@[k as int]@);
            assert(fs[j as int] == self.folders@[j as int]@);
            if !settled[k] {
                match &self.folders[k].parent_id {
                    Some(p) => {
                        if *p == self.folders[j].id {
                            return true;
                        }
                    },
                    None => {},
                }
            }
            k += 1;
        }
        false
    }

    /// The changes that bring a file that holds `self` to hold `after`: a
    /// delete for every note and every folder that `after` does not hold,
    /// then a put for every folder and every note that is new or different
    /// in `after`.
    ///
    /// A folder is deleted only after the folders below it, and nothing is
    /// deleted after the first put. Between two stores that hold the same,
    /// nothing changes.
    pub fn changes_to(&self, after: &Store) -> (r: Vec<Change>)
        requires
            self.wf(),
            after.wf(),
        ensures
            replay_all(tables_of(self@), change_views(r@)) == tables_of(after@),
            children_go_first(self@.folders, change_views(r@)),
            deletes_go_first(change_views(r@)),
            self@ == after@ ==> r@.len() == 0,
    {
        let ghost bf = self@.folders;
        let ghost bn = self@.notes;
        let ghost af = after@.folders;
        let ghost an = after@.notes;
        let ghost start = tables_of(self@);
        let mut out: Vec<Change> = Vec::new();
        assert(change_views(out@) =~= Seq::<ChangeView>::empty());

        // notes that are gone
        let mut i: usize = 0;
        assert(replay_all(start, change_views(out@)).notes =~= Map::new(
            |id: Seq<char>| has_note(bn, id) && (has_note(an, id) || note_index(bn, id) >= 0),
            |id: Seq<char>| note_of(bn, id),
        )) by {
            assert forall|id: Seq<char>| has_note(bn, id) implies note_index(bn, id) >= 0 by {}
        }
        while i < self.notes.len()
            invariant
                i <= self.notes.len(),
                self.wf(),
                bf == self@.folders,
                bn == self@.notes,
                af == after@.folders,
                an == after@.notes,
                start == tables_of(self@),
                replay_all(start, change_views(out@)).folders == start.folders,
                replay_all(start, change_views(out@)).notes == Map::new(
                    |id: Seq<char>| has_note(bn, id) && (has_note(an, id) || note_index(bn, id) >= i),
                    |id: Seq<char>| note_of(bn, id),
                ),
                forall|a: int| 0 <= a < out.len() ==> (#[trigger] change_views(out@)[a]) is DeleteNote,
                self@ == after@ ==> out.len() == 0,
            decreases self.notes.len() - i,
        {
            assert(bn[i as int] == self.notes@[i as int]@);
            proof {
                lemma_note_index(bn, i as int);
            }
            let ghost cur = replay_all(start, change_views(out@));
            if after.find_note(self.notes[i].id.as_str()).is_none() {
                let c = Change::DeleteNote(self.notes[i].id.clone());
                proof {
                    lemma_replay_push(start, out@, c);
                    assert(cur.notes.remove(bn[i as int].id) =~= Map::new(
                        |id: Seq<char>|
                            has_note(bn, id) && (has_note(an, id) || note_index(bn, id) >= i + 1),
                        |id: Seq<char>| note_of(bn, id),
                    )) by {
                        assert forall|id: Seq<char>| has_note(bn, id) && id != bn[i as int].id implies note_index(
                            bn,
                            id,
                        ) != i by {
                            if note_index(bn, id) == i {
                                assert(bn[note_index(bn, id)].id == id);
                            }
                        }
                    }
                }
                out.push(c);
            } else {
                proof {
                    assert(cur.notes =~= Map::new(
                        |id: Seq<char>|
                            has_note(bn, id) && (has_note(an, id) || note_index(bn, id) >= i + 1),
                        |id: Seq<char>| note_of(bn, id),
                    )) by {
                        assert forall|id: Seq<char>|
                            has_note(bn, id) && note_index(bn, id) == i implies has_note(an, id) by {
                            assert(bn[note_index(bn, id)].id == id);
                        }
                    }
                }
            }
            i += 1;
        }
        let ghost notes_left = Map::new(
            |id: Seq<char>| has_note(bn, id) && has_note(an, id),
            |id: Seq<char>| note_of(bn, id),
        );
        assert(replay_all(start, change_views(out@)).notes =~= notes_left) by {
            assert forall|id: Seq<char>| has_note(bn, id) implies note_index(bn, id)
                < self.notes.len() by {}
        }

        // folders that are gone, each after the folders below it
        let n = self.folders.len();
        let mut settled: Vec<bool> = Vec::new();
        let mut j: usize = 0;
        while j < n
            invariant
                j <= n,
                n == self.folders.len(),
                bf == self@.folders,
                af == after@.folders,
                settled.len() == j,
                forall|a: int| 0 <= a < j ==> settled[a] == has_folder(af, (#[trigger] bf[a]).id),
            decreases n - j,
        {
            assert(bf[j as int] == self.folders@[j as int]@);
            settled.push(after.find_folder(self.folders[j].id.as_str()).is_some());
            j += 1;
        }
        let ghost first_folder = out.len();
        assert(replay_all(start, change_views(out@)).folders =~= Map::new(
            |id: Seq<char>| has_folder(bf, id) && (has_folder(af, id) || !settled[index_of(bf, id)]),
            |id: Seq<char>| folder_of(bf, id),
        )) by {
            assert forall|id: Seq<char>| has_folder(bf, id) implies (has_folder(af, id)
                || !settled[index_of(bf, id)]) by {
                lemma_index_in_range(bf, id);
            }
        }
        let mut progress = true;
        while progress
            invariant
                self.wf(),
                n == self.folders.len(),
                bf == self@.folders,
                af == after@.folders,
                start == tables_of(self@),
                settled.len() == n,
                first_folder <= out.len(),
                self@ == after@ ==> out.len() == 0,
                forall|a: int| 0 <= a < n && has_folder(af, (#[trigger] bf[a]).id) ==> settled[a],
                replay_all(start, change_views(out@)).notes == notes_left,
                replay_all(start, change_views(out@)).folders == Map::new(
                    |id: Seq<char>|
                        has_folder(bf, id) && (has_folder(af, id) || !settled[index_of(bf, id)]),
                    |id: Seq<char>| folder_of(bf, id),
                ),
                forall|a: int|
                    0 <= a < first_folder ==> (#[trigger] change_views(out@)[a]) is DeleteNote,
                forall|a: int|
                    first_folder <= a < out.len() ==> (#[trigger] change_views(out@)[a]) is DeleteFolder,
                children_go_first(bf, change_views(out@)),
                forall|a: int, c: int|
                    first_folder <= a < out.len() && 0 <= c < n && !settled[c] ==> (
                    #[trigger] bf[c]).parent_id != Some(
                        (#[trigger] change_views(out@)[a])->DeleteFolder_0,
                    ),
                !progress ==> forall|a: int|
                    0 <= a < n && !settled[a] ==> exists|c: int|
                        0 <= c < n && !settled[c] && (#[trigger] bf[c]).parent_id == Some(bf[a].id),
            decreases
                    count_unset(settled@) + if progress {
                        1nat
                    } else {
                        0nat
                    },
        {
            progress = false;
            let ghost began = settled@;
            let mut k: usize = 0;
            while k < n
                invariant
                    k <= n,
                    self.wf(),
                    n == self.folders.len(),
                    bf == self@.folders,
                    af == after@.folders,
                    start == tables_of(self@),
                    settled.len() == n,
                    first_folder <= out.len(),
                    self@ == after@ ==> out.len() == 0,
                    forall|a: int|
                        0 <= a < n && has_folder(af, (#[trigger] bf[a]).id) ==> settled[a],
                    replay_all(start, change_views(out@)).notes == notes_left,
                    replay_all(start, change_views(out@)).folders == Map::new(
                        |id: Seq<char>|
                            has_folder(bf, id) && (has_folder(af, id) || !settled[index_of(
                                bf,
                                id,
                            )]),
                        |id: Seq<char>| folder_of(bf, id),
                    ),
                    forall|a: int|
                        0 <= a < first_folder ==> (#[trigger] change_views(out@)[a]) is DeleteNote,
                    forall|a: int|
                        first_folder <= a < out.len() ==> (
                        #[trigger] change_views(out@)[a]) is DeleteFolder,
                    children_go_first(bf, change_views(out@)),
                    forall|a: int, c: int|
                        first_folder <= a < out.len() && 0 <= c < n && !settled[c] ==> (
                        #[trigger] bf[c]).parent_id != Some(
                            (#[trigger] change_views(out@)[a])->DeleteFolder_0,
                        ),
                    !progress ==> settled@ == began,
                    !progress ==> forall|a: int|
                        0 <= a < k && !settled[a] ==> exists|c: int|
                            0 <= c < n && !settled[c] && (#[trigger] bf[c]).parent_id == Some(
                                bf[a].id,
                            ),
                    progress ==> count_unset(settled@) < count_unset(began),
                decreases n - k,
            {
                assert(bf[k as int] == self.folders@[k as int]@);
                proof {
                    if self@ == after@ {
                        lemma_index_of(bf, k as int);
                        assert(settled[k as int]);
                    }
                }
                if !settled[k] && !self.has_pending_child(&settled, k) {
                    let c = Change::DeleteFolder(self.folders[k].id.clone());
                    let ghost cur = replay_all(start, change_views(out@));
                    let ghost old_out = change_views(out@);
                    let ghost old_settled = settled@;
                    proof {
                        lemma_replay_push(start, out@, c);
                        lemma_count_unset_set(settled@, k as int);
                        lemma_index_of(bf, k as int);
                    }
                    settled.set(k, true);
                    out.push(c);
                    proof {
                        let new_out = change_views(out@);
                        assert(new_out == old_out.push(c@));
                        assert(cur.folders.remove(bf[k as int].id) =~= Map::new(
                            |id: Seq<char>|
                                has_folder(bf, id) && (has_folder(af, id) || !settled[index_of(
                                    bf,
                                    id,
                                )]),
                            |id: Seq<char>| folder_of(bf, id),
                        )) by {
                            assert forall|id: Seq<char>|
                                has_folder(bf, id) && id != bf[k as int].id implies index_of(bf, id)
                                != k by {
                                lemma_index_in_range(bf, id);
                            }
                            assert forall|id: Seq<char>| has_folder(bf, id) implies 0 <= index_of(
                                bf,
                                id,
                            ) < n by {
                                lemma_index_in_range(bf, id);
                            }
                        }
                        assert forall|a: int| 0 <= a < first_folder implies (
                        #[trigger] new_out[a]) is DeleteNote by {
                            assert(new_out[a] == old_out[a]);
                        }
                        assert forall|a: int| first_folder <= a < out.len() implies (
                        #[trigger] new_out[a]) is DeleteFolder by {
                            if a < old_out.len() {
                                assert(new_out[a] == old_out[a]);
                            }
                        }
                        assert(children_go_first(bf, new_out)) by {
                            assert forall|a: int, b: int|
                                0 <= a < b < new_out.len() && (#[trigger] new_out[a]) is DeleteFolder
                                    && (#[trigger] new_out[b]) is DeleteFolder implies parent_of(
                                bf,
                                new_out[b]->DeleteFolder_0,
                            ) != Some(new_out[a]->DeleteFolder_0) by {
                                assert(new_out[a] == old_out[a]);
                                if b < old_out.len() {
                                    assert(new_out[b] == old_out[b]);
                                } else {
                                    assert(a >= first_folder);
                                    assert(!old_settled[k as int]);
                                    assert(bf[k as int].parent_id != Some(
                                        old_out[a]->DeleteFolder_0,
                                    ));
                                }
                            }
                        }
                        assert forall|a: int, c2: int|
                            first_folder <= a < out.len() && 0 <= c2 < n
                                && !settled[c2] implies (#[trigger] bf[c2]).parent_id != Some(
                            (#[trigger] new_out[a])->DeleteFolder_0,
                        ) by {
                            assert(!old_settled[c2]);
                            if a < old_out.len() {
                                assert(new_out[a] == old_out[a]);
                            }
                        }
                    }
                    progress = true;
                }
                k += 1;
            }
        }
        proof {
            // every chain ends, so a folder that is still to be deleted and
            // has such a child under it without end cannot be
            assert forall|a: int| 0 <= a < n implies settled[a] by {
                if !settled[a] {
                    let y = lemma_pending_descends(bf, settled@, a, (n + 1) as nat);
                    assert(rooted(bf, bf[y].id));
                    lemma_chain_bound(bf, bf[y].id);
                }
            }
        }
        let ghost folders_left = Map::new(
            |id: Seq<char>| has_folder(bf, id) && has_folder(af, id),
            |id: Seq<char>| folder_of(bf, id),
        );
        assert(replay_all(start, change_views(out@)).folders =~= folders_left) by {
            assert forall|id: Seq<char>| has_folder(bf, id) implies settled[index_of(bf, id)] by {
                lemma_index_in_range(bf, id);
            }
        }
        let ghost first_put = out.len();
        let ghost deletes = change_views(out@);

        // folders that are new or different
        i = 0;
        assert(folders_left =~= Map::new(
            |id: Seq<char>|
                has_folder(af, id) && (has_folder(bf, id) || index_of(af, id) < 0),
            |id: Seq<char>|
                if index_of(af, id) < 0 {
                    folder_of(af, id)
                } else {
                    folder_of(bf, id)
                },
        )) by {
            assert forall|id: Seq<char>| has_folder(af, id) implies index_of(af, id) >= 0 by {
                lemma_index_in_range(af, id);
            }
        }
        while i < after.folders.len()
            invariant
                i <= after.folders.len(),
                self.wf(),
                after.wf(),
                bf == self@.folders,
                af == after@.folders,
                start == tables_of(self@),
                first_put <= out.len(),
                replay_all(start, change_views(out@)).notes == notes_left,
                replay_all(start, change_views(out@)).folders == Map::new(
                    |id: Seq<char>| has_folder(af, id) && (has_folder(bf, id) || index_of(af, id) < i),
                    |id: Seq<char>|
                        if index_of(af, id) < i {
                            folder_of(af, id)
                        } else {
                            folder_of(bf, id)
                        },
                ),
                forall|a: int| 0 <= a < first_put ==> change_views(out@)[a] == deletes[a],
                forall|a: int|
                    first_put <= a < out.len() ==> (#[trigger] change_views(out@)[a]) is PutFolder,
                self@ == after@ ==> out.len() == 0,
            decreases after.folders.len() - i,
        {
            let f = &after.folders[i];
            assert(af[i as int] == f@);
            proof {
                lemma_index_of(af, i as int);
            }
            let same = match self.find_folder(f.id.as_str()) {
                Some(b) => {
                    assert(bf[b as int] == self.folders@[b as int]@);
                    self.folders[b].same(f)
                },
                None => false,
            };
            assert(self@ == after@ ==> same);
            let ghost cur = replay_all(start, change_views(out@));
            let ghost goal = Map::new(
                |id: Seq<char>| has_folder(af, id) && (has_folder(bf, id) || index_of(af, id) < i + 1),
                |id: Seq<char>|
                    if index_of(af, id) < i + 1 {
                        folder_of(af, id)
                    } else {
                        folder_of(bf, id)
                    },
            );
            proof {
                assert forall|id: Seq<char>| has_folder(af, id) && id != f@.id implies index_of(af, id)
                    != i by {
                    lemma_index_in_range(af, id);
                }
            }
            if !same {
                let c = Change::PutFolder(f.clone());
                let ghost old_out = change_views(out@);
                proof {
                    lemma_replay_push(start, out@, c);
                    assert(cur.folders.insert(f@.id, f@) =~= goal);
                }
                out.push(c);
                proof {
                    let new_out = change_views(out@);
                    assert forall|a: int| 0 <= a < first_put implies new_out[a] == deletes[a] by {
                        assert(new_out[a] == old_out[a]);
                    }
                    assert forall|a: int| first_put <= a < out.len() implies (
                    #[trigger] new_out[a]) is PutFolder by {
                        if a < old_out.len() {
                            assert(new_out[a] == old_out[a]);
                        }
                    }
                }
            } else {
                proof {
                    assert(cur.folders =~= goal);
                }
            }
            i += 1;
        }
        assert(replay_all(start, change_views(out@)).folders =~= tables_of(after@).folders) by {
            assert forall|id: Seq<char>| has_folder(af, id) implies index_of(af, id)
                < after.folders.len() by {
                lemma_index_in_range(af, id);
            }
        }
        let ghost first_note_put = out.len();

        // notes that are new or different
        i = 0;
        assert(notes_left =~= Map::new(
            |id: Seq<char>| has_note(an, id) && (has_note(bn, id) || note_index(an, id) < 0),
            |id: Seq<char>|
                if note_index(an, id) < 0 {
                    note_of(an, id)
                } else {
                    note_of(bn, id)
                },
        )) by {
            assert forall|id: Seq<char>| has_note(an, id) implies note_index(an, id) >= 0 by {}
        }
        while i < after.notes.len()
            invariant
                i <= after.notes.len(),
                self.wf(),
                after.wf(),
                bn == self@.notes,
                an == after@.notes,
                start == tables_of(self@),
                first_put <= first_note_put <= out.len(),
                replay_all(start, change_views(out@)).folders == tables_of(after@).folders,
                replay_all(start, change_views(out@)).notes == Map::new(
                    |id: Seq<char>| has_note(an, id) && (has_note(bn, id) || note_index(an, id) < i),
                    |id: Seq<char>|
                        if note_index(an, id) < i {
                            note_of(an, id)
                        } else {
                            note_of(bn, id)
                        },
                ),
                forall|a: int| 0 <= a < first_put ==> change_views(out@)[a] == deletes[a],
                forall|a: int|
                    first_put <= a < out.len() ==> ((#[trigger] change_views(out@)[a]) is PutFolder
                        || change_views(out@)[a] is PutNote),
                self@ == after@ ==> out.len() == 0,
            decreases after.notes.len() - i,
        {
            let m = &after.notes[i];
            assert(an[i as int] == m@);
            proof {
                lemma_note_index(an, i as int);
            }
            let same = match self.find_note(m.id.as_str()) {
                Some(b) => {
                    assert(bn[b as int] == self.notes@[b as int]@);
                    self.notes[b].same(m)
                },
                None => false,
            };
            assert(self@ == after@ ==> same);
            let ghost cur = replay_all(start, change_views(out@));
            let ghost goal = Map::new(
                |id: Seq<char>| has_note(an, id) && (has_note(bn, id) || note_index(an, id) < i + 1),
                |id: Seq<char>|
                    if note_index(an, id) < i + 1 {
                        note_of(an, id)
                    } else {
                        note_of(bn, id)
                    },
            );
            proof {
                assert forall|id: Seq<char>| has_note(an, id) && id != m@.id implies note_index(an, id)
                    != i by {
                    if note_index(an, id) == i {
                        assert(an[note_index(an, id)].id == id);
                    }
                }
            }
            if !same {
                let c = Change::PutNote(m.clone());
                let ghost old_out = change_views(out@);
                proof {
                    lemma_replay_push(start, out@, c);
                    assert(cur.notes.insert(m@.id, m@) =~= goal);
                }
                out.push(c);
                proof {
                    let new_out = change_views(out@);
                    assert forall|a: int| 0 <= a < first_put implies new_out[a] == deletes[a] by {
                        assert(new_out[a] == old_out[a]);
                    }
                    assert forall|a: int| first_put <= a < out.len() implies ((
                    #[trigger] new_out[a]) is PutFolder || new_out[a] is PutNote) by {
                        if a < old_out.len() {
                            assert(new_out[a] == old_out[a]);
                        }
                    }
                }
            } else {
                proof {
                    assert(cur.notes =~= goal);
                }
            }
            i += 1;
        }
        proof {
            let fin = change_views(out@);
            assert(replay_all(start, fin).notes =~= tables_of(after@).notes) by {
                assert forall|id: Seq<char>| has_note(an, id) implies note_index(an, id)
                    < after.notes.len() by {}
            }
            assert(children_go_first(bf, fin)) by {
                assert forall|a: int, b: int|
                    0 <= a < b < fin.len() && (#[trigger] fin[a]) is DeleteFolder && (
                    #[trigger] fin[b]) is DeleteFolder implies parent_of(
                    bf,
                    fin[b]->DeleteFolder_0,
                ) != Some(fin[a]->DeleteFolder_0) by {
                    assert(b < first_put);
                    assert(fin[a] == deletes[a] && fin[b] == deletes[b]);
                }
            }
            assert(deletes_go_first(fin)) by {
                assert forall|a: int, b: int|
                    0 <= a < b < fin.len() && ((#[trigger] fin[b]) is DeleteFolder
                        || fin[b] is DeleteNote) implies ((#[trigger] fin[a]) is DeleteFolder
                    || fin[a] is DeleteNote) by {
                    assert(b < first_put);
                    assert(fin[a] == deletes[a]);
                }
            }
        }
        out
    }
}

} // verus!
