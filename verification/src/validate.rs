//! Building a store from rows that come from outside: the rules are
//! checked one by one.

use crate::forest::{
    acyclic, has_folder, lemma_chain_bound, lemma_index_of, lemma_up_add, parents_exist, rooted,
    unique_ids, up,
};
use crate::flags::{count_unset, lemma_count_unset_all, lemma_count_unset_set};
use crate::folders::{age_slot, lemma_age_slot_range, with_folder};
use crate::model::{folder_views, note_views, Folder, FolderView, Note, NoteView};
use crate::store::{
    has_note, notes_filed, oldest_first, root_name_taken, root_names_unique, store_wf,
    unique_note_ids, Store, StoreView,
};
use vstd::prelude::*;

verus! {

impl Store {
    /// Whether no two folders share an id.
    pub fn folder_ids_unique(&self) -> (r: bool)
        ensures
            r == unique_ids(self@.folders),
    {
        let ghost fs = self@.folders;
        let n = self.folders.len();
        let mut i: usize = 0;
        while i < n
            invariant
                i <= n,
                n == fs.len(),
                fs == self@.folders,
                forall|a: int, b: int| 0 <= b < a < i ==> (#[trigger] fs[a]).id != (#[trigger] fs[b]).id,
            decreases n - i,
        {
            let mut j: usize = 0;
            while j < i
                invariant
                    j <= i,
                    i < n,
                    n == fs.len(),
                    fs == self@.folders,
                    forall|b: int| 0 <= b < j ==> (#[trigger] fs[b]).id != fs[i as int].id,
                decreases i - j,
            {
                assert(fs[i as int] == self.folders@[i as int]@);
                assert(fs[j as int] == self.folders@[j as int]@);
                if self.folders[i].id == self.folders[j].id {
                    return false;
                }
                j += 1;
            }
            i += 1;
        }
        assert forall|a: int, b: int|
            0 <= a < fs.len() && 0 <= b < fs.len() && a != b implies (#[trigger] fs[a]).id != (
            #[trigger] fs[b]).id by {
            if b < a {
            } else {
                assert(fs[b].id != fs[a].id);
            }
        }
        true
    }

    /// Whether no two notes share an id.
    pub fn note_ids_unique(&self) -> (r: bool)
        ensures
            r == unique_note_ids(self@.notes),
    {
        let ghost ns = self@.notes;
        let n = self.notes.len();
        let mut i: usize = 0;
        while i < n
            invariant
                i <= n,
                n == ns.len(),
                ns == self@.notes,
                forall|a: int, b: int| 0 <= b < a < i ==> (#[trigger] ns[a]).id != (#[trigger] ns[b]).id,
            decreases n - i,
        {
            let mut j: usize = 0;
            while j < i
                invariant
                    j <= i,
                    i < n,
                    n == ns.len(),
                    ns == self@.notes,
                    forall|b: int| 0 <= b < j ==> (#[trigger] ns[b]).id != ns[i as int].id,
                decreases i - j,
            {
                assert(ns[i as int] == self.notes@[i as int]@);
                assert(ns[j as int] == self.notes@[j as int]@);
                if self.notes[i].id == self.notes[j].id {
                    return false;
                }
                j += 1;
            }
            i += 1;
        }
        assert forall|a: int, b: int|
            0 <= a < ns.len() && 0 <= b < ns.len() && a != b implies (#[trigger] ns[a]).id != (
            #[trigger] ns[b]).id by {
            if b < a {
            } else {
                assert(ns[b].id != ns[a].id);
            }
        }
        true
    }

    /// Whether no two root-level folders share a name.
    pub fn root_names_distinct(&self) -> (r: bool)
        ensures
            r == root_names_unique(self@.folders),
    {
        let ghost fs = self@.folders;
        let n = self.folders.len();
        let mut i: usize = 0;
        while i < n
            invariant
                i <= n,
                n == fs.len(),
                fs == self@.folders,
                forall|a: int, b: int|
                    0 <= b < a < i && (#[trigger] fs[a]).parent_id is None && (
                    #[trigger] fs[b]).parent_id is None ==> fs[a].name != fs[b].name,
            decreases n - i,
        {
            assert(fs[i as int] == self.folders@[i as int]@);
            if self.folders[i].parent_id.is_none() {
                let mut j: usize = 0;
                while j < i
                    invariant
                        j <= i,
                        i < n,
                        n == fs.len(),
                        fs == self@.folders,
                        fs[i as int].parent_id is None,
                        forall|b: int|
                            0 <= b < j && (#[trigger] fs[b]).parent_id is None ==> fs[b].name
                                != fs[i as int].name,
                    decreases i - j,
                {
                    assert(fs[i as int] == self.folders@[i as int]@);
                    assert(fs[j as int] == self.folders@[j as int]@);
                    if self.folders[j].parent_id.is_none() && self.folders[i].name
                        == self.folders[j].name {
                        assert(fs[i as int].parent_id is None && fs[j as int].parent_id is None
                            && fs[i as int].name == fs[j as int].name);
                        return false;
                    }
                    j += 1;
                }
            }
            i += 1;
        }
        assert forall|a: int, b: int|
            0 <= a < fs.len() && 0 <= b < fs.len() && a != b && (#[trigger] fs[a]).parent_id is None
                && (#[trigger] fs[b]).parent_id is None implies fs[a].name != fs[b].name by {
            if b < a {
            } else {
                assert(fs[b].name != fs[a].name);
            }
        }
        true
    }

    /// Whether every parent that is named is a folder.
    pub fn parents_present(&self) -> (r: bool)
        ensures
            r == parents_exist(self@.folders),
    {
        let ghost fs = self@.folders;
        let mut i: usize = 0;
        while i < self.folders.len()
            invariant
                i <= self.folders.len(),
                fs == self@.folders,
                forall|a: int|
                    0 <= a < i ==> ((#[trigger] fs[a]).parent_id matches Some(p) ==> has_folder(
                        fs,
                        p,
                    )),
            decreases self.folders.len() - i,
        {
            assert(fs[i as int] == self.folders@[i as int]@);
            match &self.folders[i].parent_id {
                Some(p) => {
                    if self.find_folder(p.as_str()).is_none() {
                        return false;
                    }
                },
                None => {},
            }
            i += 1;
        }
        true
    }

    /// Whether the folders stand oldest first.
    pub fn folders_by_age(&self) -> (r: bool)
        ensures
            r == oldest_first(self@.folders),
    {
        let ghost fs = self@.folders;
        let n = self.folders.len();
        if n == 0 {
            return true;
        }
        let mut i: usize = 1;
        while i < n
            invariant
                1 <= i <= n,
                n == fs.len(),
                fs == self@.folders,
                forall|a: int, b: int|
                    0 <= a < b < i ==> (#[trigger] fs[a]).created_at <= (#[trigger] fs[b]).created_at,
            decreases n - i,
        {
            assert(fs[i as int] == self.folders@[i as int]@);
            assert(fs[i - 1] == self.folders@[i - 1]@);
            if self.folders[i - 1].created_at > self.folders[i].created_at {
                return false;
            }
            assert forall|a: int, b: int| 0 <= a < b < i + 1 implies (#[trigger] fs[a]).created_at <= (
            #[trigger] fs[b]).created_at by {
                if b == i && a < i - 1 {
                    assert(fs[a].created_at <= fs[i - 1].created_at);
                }
            }
            i += 1;
        }
        true
    }

    /// Whether every note is filed in a folder.
    pub fn notes_have_folders(&self) -> (r: bool)
        ensures
            r == notes_filed(self@.folders, self@.notes),
    {
        let ghost ns = self@.notes;
        let mut i: usize = 0;
        while i < self.notes.len()
            invariant
                i <= self.notes.len(),
                ns == self@.notes,
                forall|a: int| 0 <= a < i ==> has_folder(self@.folders, (#[trigger] ns[a]).folder_id),
            decreases self.notes.len() - i,
        {
            assert(ns[i as int] == self.notes@[i as int]@);
            if self.find_folder(self.notes[i].folder_id.as_str()).is_none() {
                return false;
            }
            i += 1;
        }
        true
    }

    /// Whether the parent chain of the folder at place `start` ends.
    pub fn chain_ends(&self, start: usize) -> (r: bool)
        requires
            unique_ids(self@.folders),
            start < self@.folders.len(),
        ensures
            r == rooted(self@.folders, self@.folders[start as int].id),
    {
        let ghost fs = self@.folders;
        let ghost id = fs[start as int].id;
        let n = self.folders.len();
        let mut cur: usize = start;
        let mut k: usize = 0;
        while k < n
            invariant
                unique_ids(fs),
                fs == self@.folders,
                n == fs.len(),
                k <= n,
                cur < n,
                start < n,
                id == fs[start as int].id,
                up(fs, id, k as nat) == Some(fs[cur as int].id),
            decreases n - k,
        {
            proof {
                lemma_index_of(fs, cur as int);
                lemma_up_add(fs, id, k as nat, 1);
                assert(fs[cur as int] == self.folders@[cur as int]@);
                reveal_with_fuel(up, 2);
            }
            match &self.folders[cur].parent_id {
                None => {
                    assert(up(fs, id, (k + 1) as nat) is None);
                    return true;
                },
                Some(p) => {
                    assert(up(fs, id, (k + 1) as nat) == Some(p@));
                    match self.find_folder(p.as_str()) {
                        Some(pi) => {
                            cur = pi;
                            k += 1;
                        },
                        None => {
                            proof {
                                lemma_up_add(fs, id, (k + 1) as nat, 1);
                                assert(up(fs, id, (k + 2) as nat) is None);
                            }
                            return true;
                        },
                    }
                },
            }
        }
        proof {
            lemma_index_of(fs, cur as int);
            lemma_up_add(fs, id, n as nat, 1);
            assert(fs[cur as int] == self.folders@[cur as int]@);
            reveal_with_fuel(up, 2);
        }
        match &self.folders[cur].parent_id {
            None => {
                assert(up(fs, id, (n + 1) as nat) is None);
                true
            },
            Some(p) => {
                proof {
                    assert(up(fs, id, (n + 1) as nat) == Some(p@));
                    if rooted(fs, id) {
                        lemma_chain_bound(fs, id);
                    }
                }
                false
            },
        }
    }

    /// Whether no parent chain runs in a circle.
    pub fn chains_end(&self) -> (r: bool)
        requires
            unique_ids(self@.folders),
        ensures
            r == acyclic(self@.folders),
    {
        let ghost fs = self@.folders;
        let mut i: usize = 0;
        while i < self.folders.len()
            invariant
                i <= self.folders.len(),
                fs == self@.folders,
                unique_ids(fs),
                forall|a: int| 0 <= a < i ==> rooted(fs, (#[trigger] fs[a]).id),
            decreases self.folders.len() - i,
        {
            if !self.chain_ends(i) {
                return false;
            }
            i += 1;
        }
        true
    }

    /// Whether the store keeps every rule of a store.
    pub fn keeps_rules(&self) -> (r: bool)
        ensures
            r == self.wf(),
    {
        self.folder_ids_unique() && self.parents_present() && self.chains_end()
            && self.folders_by_age() && self.root_names_distinct() && self.note_ids_unique()
            && self.notes_have_folders()
    }

    /// Whether the store can take the folder as it is: its id is free, its
    /// parent, where it names one, is there, and its name is free where it
    /// is a root-level folder.
    pub fn can_take(&self, f: &Folder) -> (r: bool)
        ensures
            r == can_take_folder(self@.folders, f@),
    {
        if self.find_folder(f.id.as_str()).is_some() {
            return false;
        }
        match &f.parent_id {
            Some(p) => self.find_folder(p.as_str()).is_some(),
            None => !self.root_name_in_use(f.name.as_str(), f.id.as_str()),
        }
    }

    /// The store that holds the folders and notes given, if they keep the
    /// rules of a store; else `None`.
    pub fn assemble(folders: Vec<Folder>, notes: Vec<Note>) -> (r: Option<Store>)
        ensures
            match r {
                Some(s) => s.wf() && s@.folders == folder_views(folders@) && s@.notes == note_views(
                    notes@,
                ),
                None => !store_wf(
                    StoreView { folders: folder_views(folders@), notes: note_views(notes@) },
                ),
            },
    {
        let s = Store { folders, notes };
        if s.keeps_rules() {
            Some(s)
        } else {
            None
        }
    }

    /// The place of a folder that is not placed yet and can be taken as a
    /// root-level folder, if there is one.
    pub fn find_cut(&self, folders: &Vec<Folder>, placed: &Vec<bool>) -> (r: Option<usize>)
        requires
            placed.len() == folders.len(),
        ensures
            match r {
                Some(j) => j < folders.len() && !placed[j as int] && can_take_folder(
                    self@.folders,
                    cut(folders[j as int]@),
                ),
                None => forall|j: int|
                    0 <= j < folders.len() && !placed[j] ==> !can_take_folder(
                        self@.folders,
                        cut((#[trigger] folders[j])@),
                    ),
            },
    {
        let mut j: usize = 0;
        while j < folders.len()
            invariant
                j <= folders.len(),
                placed.len() == folders.len(),
                forall|a: int|
                    0 <= a < j && !placed[a] ==> !can_take_folder(
                        self@.folders,
                        cut((#[trigger] folders[a])@),
                    ),
            decreases folders.len() - j,
        {
            if !placed[j] {
                let c = rooted_copy(&folders[j]);
                if self.can_take(&c) {
                    return Some(j);
                }
            }
            j += 1;
        }
        None
    }

    /// The store that holds the folders and notes given, mended where they
    /// break a rule of a store, and how many rows it had to mend or leave
    /// out.
    ///
    /// Rows that keep the rules are all taken, as they are and in their
    /// order. Of rows that break a rule, a folder is taken as it is once its
    /// id is free, its parent is there and, for a root-level folder, its
    /// name is free. Where no folder can be taken so, the first that can be
    /// taken as a root-level folder is taken without its parent: that cuts
    /// a circle of parents and gives a folder whose parent is missing a
    /// place. A note is taken once its id is free and its folder is there.
    pub fn gather(folders: Vec<Folder>, notes: Vec<Note>) -> (r: Gathered)
        ensures
            is_gathered(folder_views(folders@), note_views(notes@), r.store@),
            r.store.wf(),
            r.folders_left == folders@.len() - r.store@.folders.len(),
            r.notes_left == notes@.len() - r.store@.notes.len(),
            r.folders_cut <= r.store@.folders.len(),
            store_wf(StoreView { folders: folder_views(folders@), notes: note_views(notes@) })
                ==> r.folders_cut == 0,
    {
        let ghost fin = folder_views(folders@);
        let ghost nin = note_views(notes@);
        let whole = Store { folders, notes };
        if whole.keeps_rules() {
            proof {
                assert forall|i: int| 0 <= i < fin.len() implies from_rows(fin, #[trigger] fin[i]) by {}
                assert forall|i: int| 0 <= i < nin.len() implies nin.contains(#[trigger] nin[i]) by {}
                assert forall|k: int| 0 <= k < nin.len() implies has_note(nin, (#[trigger] nin[k]).id) by {}
                assert forall|j: int| 0 <= j < fin.len() implies has_folder(fin, (#[trigger] fin[j]).id) by {}
            }
            return Gathered { store: whole, folders_left: 0, notes_left: 0, folders_cut: 0 };
        }
        let n = whole.folders.len();
        let mut out = Store::new();
        let mut placed: Vec<bool> = Vec::new();
        let mut i: usize = 0;
        while i < n
            invariant
                i <= n,
                placed.len() == i,
                forall|j: int| 0 <= j < i ==> !placed[j],
            decreases n - i,
        {
            placed.push(false);
            i += 1;
        }
        proof {
            lemma_count_unset_all(placed@);
        }
        let mut cuts: usize = 0;
        let mut progress = true;
        while progress
            invariant
                fin == folder_views(whole.folders@),
                n == whole.folders.len(),
                placed.len() == n,
                out.wf(),
                out@.notes.len() == 0,
                out@.folders.len() + count_unset(placed@) == n,
                cuts <= out@.folders.len(),
                forall|a: int| 0 <= a < out@.folders.len() ==> from_rows(fin, #[trigger] out@.folders[a]),
                forall|j: int|
                    0 <= j < n && placed[j] ==> has_folder(out@.folders, (#[trigger] fin[j]).id),
                !progress ==> forall|j: int|
                    0 <= j < n && !placed[j] ==> !can_take_folder(
                        out@.folders,
                        cut(#[trigger] fin[j]),
                    ),
            decreases
                    count_unset(placed@) + if progress {
                        1nat
                    } else {
                        0nat
                    },
        {
            progress = false;
            let ghost began = placed@;
            let mut j: usize = 0;
            while j < n
                invariant
                    j <= n,
                    fin == folder_views(whole.folders@),
                    n == whole.folders.len(),
                    placed.len() == n,
                    out.wf(),
                    out@.notes.len() == 0,
                    out@.folders.len() + count_unset(placed@) == n,
                    cuts <= out@.folders.len(),
                    forall|a: int|
                        0 <= a < out@.folders.len() ==> from_rows(fin, #[trigger] out@.folders[a]),
                    forall|a: int|
                        0 <= a < n && placed[a] ==> has_folder(
                            out@.folders,
                            (#[trigger] fin[a]).id,
                        ),
                    !progress ==> placed@ == began,
                    progress ==> count_unset(placed@) < count_unset(began),
                decreases n - j,
            {
                assert(fin[j as int] == whole.folders@[j as int]@);
                if !placed[j] && out.can_take(&whole.folders[j]) {
                    let f = whole.folders[j].clone();
                    let ghost before = out@.folders;
                    proof {
                        lemma_count_unset_set(placed@, j as int);
                        lemma_with_folder_members(before, f@);
                    }
                    out.put_folder(f);
                    placed.set(j, true);
                    progress = true;
                    proof {
                        assert forall|a: int| 0 <= a < out@.folders.len() implies from_rows(
                            fin,
                            #[trigger] out@.folders[a],
                        ) by {
                            assert(out@.folders.contains(out@.folders[a]));
                            if out@.folders[a] != fin[j as int] {
                                assert(before.contains(out@.folders[a]));
                                let b = choose|b: int|
                                    0 <= b < before.len() && before[b] == out@.folders[a];
                                assert(from_rows(fin, before[b]));
                            }
                        }
                    }
                }
                j += 1;
            }
            if !progress {
                match out.find_cut(&whole.folders, &placed) {
                    Some(c) => {
                        assert(fin[c as int] == whole.folders@[c as int]@);
                        let f = rooted_copy(&whole.folders[c]);
                        let ghost before = out@.folders;
                        proof {
                            lemma_count_unset_set(placed@, c as int);
                            lemma_with_folder_members(before, f@);
                        }
                        out.put_folder(f);
                        placed.set(c, true);
                        cuts += 1;
                        progress = true;
                        proof {
                            assert forall|a: int| 0 <= a < out@.folders.len() implies from_rows(
                                fin,
                                #[trigger] out@.folders[a],
                            ) by {
                                assert(out@.folders.contains(out@.folders[a]));
                                if out@.folders[a] != cut(fin[c as int]) {
                                    assert(before.contains(out@.folders[a]));
                                    let b = choose|b: int|
                                        0 <= b < before.len() && before[b] == out@.folders[a];
                                    assert(from_rows(fin, before[b]));
                                }
                            }
                        }
                    },
                    None => {
                        assert forall|j: int| 0 <= j < n && !placed[j] implies !can_take_folder(
                            out@.folders,
                            cut(#[trigger] fin[j]),
                        ) by {
                            assert(fin[j] == whole.folders@[j]@);
                        }
                    },
                }
            }
        }
        let ghost kept = out@.folders;
        proof {
            assert forall|j: int| 0 <= j < fin.len() implies has_folder(
                kept,
                (#[trigger] fin[j]).id,
            ) || root_name_taken(kept, fin[j].name, fin[j].id) by {
                if !placed[j] {
                    assert(!can_take_folder(kept, cut(fin[j])));
                }
            }
        }
        let m = whole.notes.len();
        let mut k: usize = 0;
        while k < m
            invariant
                k <= m,
                nin == note_views(whole.notes@),
                m == whole.notes.len(),
                out.wf(),
                out@.folders == kept,
                out@.notes.len() <= k,
                forall|a: int| 0 <= a < out@.notes.len() ==> nin.contains(#[trigger] out@.notes[a]),
                forall|a: int|
                    0 <= a < k ==> has_note(out@.notes, (#[trigger] nin[a]).id) || !has_folder(
                        kept,
                        nin[a].folder_id,
                    ),
            decreases m - k,
        {
            let note = &whole.notes[k];
            assert(nin[k as int] == note@);
            let ghost before = out@.notes;
            if out.find_note(note.id.as_str()).is_none() && out.find_folder(
                note.folder_id.as_str(),
            ).is_some() {
                let done = out.insert_note(note.clone());
                proof {
                    assert(done is Ok);
                    assert(out@.notes == before.push(note@));
                    assert(out@.notes[before.len() as int].id == note@.id);
                    assert forall|a: int| 0 <= a < out@.notes.len() implies nin.contains(
                        #[trigger] out@.notes[a],
                    ) by {
                        if a < before.len() {
                            assert(out@.notes[a] == before[a]);
                        }
                    }
                    assert forall|a: int| 0 <= a < k + 1 implies has_note(
                        out@.notes,
                        (#[trigger] nin[a]).id,
                    ) || !has_folder(kept, nin[a].folder_id) by {
                        if a < k && has_note(before, nin[a].id) {
                            let b = choose|b: int|
                                0 <= b < before.len() && (#[trigger] before[b]).id == nin[a].id;
                            assert(out@.notes[b] == before[b]);
                        }
                    }
                }
            }
            k += 1;
        }
        let folders_left = n - out.folders.len();
        let notes_left = m - out.notes.len();
        Gathered { store: out, folders_left, notes_left, folders_cut: cuts }
    }
}

/// A copy of the folder without its parent.
pub fn rooted_copy(f: &Folder) -> (r: Folder)
    ensures
        r@ == cut(f@),
{
    Folder {
        id: f.id.clone(),
        name: f.name.clone(),
        created_at: f.created_at,
        updated_at: f.updated_at,
        parent_id: None,
    }
}

/// The folder as a root-level folder: without its parent.
pub open spec fn cut(f: FolderView) -> FolderView {
    FolderView { parent_id: None, ..f }
}

/// `f` is one of the folders `fin`, as it is or without its parent.
pub open spec fn from_rows(fin: Seq<FolderView>, f: FolderView) -> bool {
    exists|j: int| 0 <= j < fin.len() && (f == #[trigger] fin[j] || f == cut(fin[j]))
}

/// The store `fs` can take the folder `f` as it is.
pub open spec fn can_take_folder(fs: Seq<FolderView>, f: FolderView) -> bool {
    &&& !has_folder(fs, f.id)
    &&& f.parent_id matches Some(p) ==> has_folder(fs, p)
    &&& f.parent_id is None ==> !root_name_taken(fs, f.name, f.id)
}

/// `s` holds the folders `fin` and the notes `nin` as far as the rules of a
/// store allow: all of them, as they are and in their order, where they
/// keep the rules. Else every folder of `s` is one of `fin`, as it is or
/// without its parent, and every note of `s` is one of `nin`; every folder
/// of `fin` has its id in `s`, unless another root-level folder of `s` has
/// its name; and every note of `nin` has its id in `s`, unless its folder
/// is not in `s`.
pub open spec fn is_gathered(fin: Seq<FolderView>, nin: Seq<NoteView>, s: StoreView) -> bool {
    &&& store_wf(s)
    &&& store_wf(StoreView { folders: fin, notes: nin }) ==> s == (StoreView {
        folders: fin,
        notes: nin,
    })
    &&& forall|i: int| 0 <= i < s.folders.len() ==> from_rows(fin, #[trigger] s.folders[i])
    &&& forall|i: int| 0 <= i < s.notes.len() ==> nin.contains(#[trigger] s.notes[i])
    &&& forall|j: int|
        0 <= j < fin.len() ==> has_folder(s.folders, (#[trigger] fin[j]).id) || root_name_taken(
            s.folders,
            fin[j].name,
            fin[j].id,
        )
    &&& forall|k: int|
        0 <= k < nin.len() ==> has_note(s.notes, (#[trigger] nin[k]).id) || !has_folder(
            s.folders,
            nin[k].folder_id,
        )
}

/// A store that was gathered from rows, and how many rows were left out or
/// mended: the folders and notes that are not in the store, and the folders
/// that are in it without the parent that they named.
#[derive(Debug, PartialEq, Eq)]
pub struct Gathered {
    pub store: Store,
    pub folders_left: usize,
    pub notes_left: usize,
    pub folders_cut: usize,
}

/// The folders of a store that took a folder in are the folders it had and
/// the new one.
pub proof fn lemma_with_folder_members(fs: Seq<FolderView>, f: FolderView)
    ensures
        with_folder(fs, f).len() == fs.len() + 1,
        with_folder(fs, f).contains(f),
        forall|x: FolderView| fs.contains(x) ==> #[trigger] with_folder(fs, f).contains(x),
        forall|x: FolderView|
            #[trigger] with_folder(fs, f).contains(x) ==> fs.contains(x) || x == f,
{
    let pos = age_slot(fs, f.created_at);
    lemma_age_slot_range(fs, f.created_at);
    fs.insert_ensures(pos, f);
    let new = with_folder(fs, f);
    assert(new[pos] == f);
    assert forall|x: FolderView| fs.contains(x) implies #[trigger] new.contains(x) by {
        let i = choose|i: int| 0 <= i < fs.len() && fs[i] == x;
        if i < pos {
            assert(new[i] == x);
        } else {
            assert(new[i + 1] == x);
        }
    }
    assert forall|x: FolderView| #[trigger] new.contains(x) implies fs.contains(x) || x == f by {
        let i = choose|i: int| 0 <= i < new.len() && new[i] == x;
        if i < pos {
            assert(fs[i] == x);
        } else if i > pos {
            assert(new[(i - 1) + 1] == fs[i - 1]);
        }
    }
}

} // verus!
