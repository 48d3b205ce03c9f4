//! The operations of the store on folders.

use crate::forest::{
    acyclic, has_folder, index_of, lemma_absent_rooted, lemma_chain_bound, lemma_index_in_range,
    lemma_index_of, lemma_under_step, lemma_up_add, lemma_up_agree, lemma_up_none_stays, parent_of,
    parents_exist, rooted, under, unique_ids, up,
};
use crate::clock::now_nanos;
use crate::ident::{id_text, next_count, safe_id, IdSource};
use crate::model::{lemma_folder_views_insert, opt_view, Folder, FolderView, StoreError};
use crate::store::{
    notes_filed, oldest_first, root_name_taken, root_names_unique, store_wf, Store, StoreView,
};
use vstd::prelude::*;

verus! {

/// The place at which a folder created at `t` goes: behind every folder
/// that is not younger.
pub open spec fn age_slot(fs: Seq<FolderView>, t: i64) -> int
    decreases fs.len(),
{
    if fs.len() == 0 {
        0
    } else if fs.last().created_at <= t {
        fs.len() as int
    } else {
        age_slot(fs.drop_last(), t)
    }
}

/// `fs` with `f` put in at its place by age.
pub open spec fn with_folder(fs: Seq<FolderView>, f: FolderView) -> Seq<FolderView> {
    fs.insert(age_slot(fs, f.created_at), f)
}

/// Why a folder with these values cannot be created, if it cannot.
pub open spec fn create_folder_error(
    fs: Seq<FolderView>,
    id: Seq<char>,
    name: Seq<char>,
    parent: Option<Seq<char>>,
) -> Option<StoreError> {
    if parent == Some(id) {
        Some(StoreError::SelfParent)
    } else if parent is Some && !has_folder(fs, parent->0) {
        Some(StoreError::ParentNotFound)
    } else if parent is Some && under(fs, parent->0, id) {
        Some(StoreError::Cycle)
    } else if has_folder(fs, id) {
        Some(StoreError::DuplicateId)
    } else if parent is None && root_name_taken(fs, name, id) {
        Some(StoreError::DuplicateRootName)
    } else {
        None
    }
}

/// The slot by age lies inside the sequence or right behind it.
pub proof fn lemma_age_slot_range(fs: Seq<FolderView>, t: i64)
    ensures
        0 <= age_slot(fs, t) <= fs.len(),
    decreases fs.len(),
{
    if fs.len() > 0 && fs.last().created_at > t {
        lemma_age_slot_range(fs.drop_last(), t);
    }
}

/// Where the slot by age lies in a sequence that is ordered by age.
pub proof fn lemma_age_slot(fs: Seq<FolderView>, t: i64)
    requires
        oldest_first(fs),
    ensures
        0 <= age_slot(fs, t) <= fs.len(),
        forall|i: int| 0 <= i < age_slot(fs, t) ==> (#[trigger] fs[i]).created_at <= t,
        forall|i: int| age_slot(fs, t) <= i < fs.len() ==> (#[trigger] fs[i]).created_at > t,
    decreases fs.len(),
{
    if fs.len() > 0 && fs.last().created_at > t {
        let init = fs.drop_last();
        assert forall|i: int, j: int| 0 <= i < j < init.len() implies (#[trigger] init[i]).created_at
            <= (#[trigger] init[j]).created_at by {
            assert(init[i] == fs[i]);
            assert(init[j] == fs[j]);
        }
        lemma_age_slot(init, t);
        assert forall|i: int| 0 <= i < age_slot(fs, t) implies (#[trigger] fs[i]).created_at
            <= t by {
            assert(init[i] == fs[i]);
        }
        assert forall|i: int| age_slot(fs, t) <= i < fs.len() implies (#[trigger] fs[i]).created_at
            > t by {
            if i < init.len() {
                assert(init[i] == fs[i]);
            }
        }
    } else if fs.len() > 0 {
        assert forall|i: int| 0 <= i < fs.len() implies (#[trigger] fs[i]).created_at <= t by {
            if i < fs.len() - 1 {
                assert(fs[i].created_at <= fs[fs.len() - 1].created_at);
            }
        }
    }
}

/// A store stays well formed when a folder with a fresh id comes in at `pos`,
/// if its parent is a folder, its name is free where it is a root, and the
/// order by age is kept.
pub proof fn lemma_insert_folder_wf(s: StoreView, f: FolderView, pos: int)
    requires
        store_wf(s),
        0 <= pos <= s.folders.len(),
        !has_folder(s.folders, f.id),
        f.parent_id matches Some(p) ==> has_folder(s.folders, p),
        f.parent_id is None ==> !root_name_taken(s.folders, f.name, f.id),
        forall|i: int| 0 <= i < pos ==> (#[trigger] s.folders[i]).created_at <= f.created_at,
        forall|i: int|
            pos <= i < s.folders.len() ==> (#[trigger] s.folders[i]).created_at >= f.created_at,
    ensures
        store_wf(StoreView { folders: s.folders.insert(pos, f), notes: s.notes }),
        forall|x: Seq<char>|
            has_folder(s.folders.insert(pos, f), x) <==> has_folder(s.folders, x) || x == f.id,
        forall|x: Seq<char>, root: Seq<char>|
            x != f.id ==> (under(s.folders.insert(pos, f), x, root) <==> under(s.folders, x, root)),
{
    let fs = s.folders;
    let new = fs.insert(pos, f);
    fs.insert_ensures(pos, f);
    let src = |i: int| if i < pos { i } else { i - 1 };
    assert forall|i: int| 0 <= i < new.len() && i != pos implies 0 <= src(i) < fs.len()
        && #[trigger] new[i] == fs[src(i)] by {
        if i > pos {
            assert(new[(i - 1) + 1] == fs[i - 1]);
        }
    }
    assert forall|j: int| 0 <= j < fs.len() implies fs[j] == new[if j < pos { j } else { j + 1 }] by {}
    assert forall|x: Seq<char>| has_folder(new, x) <==> has_folder(fs, x) || x == f.id by {
        if has_folder(new, x) {
            let i = choose|i: int| 0 <= i < new.len() && (#[trigger] new[i]).id == x;
            if i != pos {
                assert(fs[src(i)].id == x);
            }
        }
        if has_folder(fs, x) {
            let j = choose|j: int| 0 <= j < fs.len() && (#[trigger] fs[j]).id == x;
            let i = if j < pos { j } else { j + 1 };
            assert(new[i].id == x);
        }
        if x == f.id {
            assert(new[pos].id == x);
        }
    }
    assert(unique_ids(new)) by {
        assert forall|i: int, j: int|
            0 <= i < new.len() && 0 <= j < new.len() && i != j implies (#[trigger] new[i]).id != (
            #[trigger] new[j]).id by {
            if i != pos && j != pos {
                assert(new[i] == fs[src(i)]);
                assert(new[j] == fs[src(j)]);
            } else if i == pos {
                assert(new[j] == fs[src(j)]);
            } else {
                assert(new[i] == fs[src(i)]);
            }
        }
    }
    assert forall|y: Seq<char>| y != f.id implies parent_of(new, y) == parent_of(fs, y) by {
        if has_folder(fs, y) {
            lemma_index_in_range(new, y);
            lemma_index_in_range(fs, y);
            let i = index_of(new, y);
            assert(new[i] == fs[src(i)]);
            lemma_index_of(fs, src(i));
        }
    }
    assert(parent_of(new, f.id) == f.parent_id) by {
        lemma_index_of(new, pos);
    }
    assert(parents_exist(new)) by {
        assert forall|i: int| 0 <= i < new.len() implies ((#[trigger] new[i]).parent_id matches Some(
            p,
        ) ==> has_folder(new, p)) by {
            if i != pos {
                assert(new[i] == fs[src(i)]);
            }
        }
    }
    let keep = |y: Seq<char>| y != f.id;
    assert forall|y: Seq<char>| #[trigger] keep(y) implies (parent_of(fs, y) matches Some(p)
        ==> keep(p)) by {
        if has_folder(fs, y) {
            lemma_index_in_range(fs, y);
        }
    }
    assert forall|x: Seq<char>, k: nat| x != f.id implies up(new, x, k) == up(fs, x, k) by {
        lemma_up_agree(fs, new, keep, x, k);
    }
    assert forall|x: Seq<char>, root: Seq<char>| x != f.id implies (under(new, x, root) <==> under(
        fs,
        x,
        root,
    )) by {
        if under(new, x, root) {
            let k = choose|k: nat| up(new, x, k) == Some(root);
            assert(up(fs, x, k) == Some(root));
        }
        if under(fs, x, root) {
            let k = choose|k: nat| up(fs, x, k) == Some(root);
            assert(up(new, x, k) == Some(root));
        }
    }
    assert(acyclic(new)) by {
        assert forall|i: int| 0 <= i < new.len() implies rooted(new, (#[trigger] new[i]).id) by {
            if i != pos {
                assert(new[i] == fs[src(i)]);
                let oid = fs[src(i)].id;
                assert(rooted(fs, oid));
                let k = choose|k: nat| up(fs, oid, k) is None;
                assert(up(new, oid, k) is None);
            } else {
                match f.parent_id {
                    Some(p) => {
                        let j = choose|j: int| 0 <= j < fs.len() && (#[trigger] fs[j]).id == p;
                        assert(rooted(fs, fs[j].id));
                        let k = choose|k: nat| up(fs, p, k) is None;
                        assert(up(new, p, k) is None);
                        assert(up(new, f.id, k + 1) is None);
                    },
                    None => {
                        assert(up(new, f.id, 1) is None);
                    },
                }
            }
        }
    }
    assert(oldest_first(new)) by {
        assert forall|i: int, j: int| 0 <= i < j < new.len() implies (#[trigger] new[i]).created_at
            <= (#[trigger] new[j]).created_at by {
            if i != pos {
                assert(new[i] == fs[src(i)]);
            }
            if j != pos {
                assert(new[j] == fs[src(j)]);
            }
        }
    }
    assert(root_names_unique(new)) by {
        assert forall|i: int, j: int|
            0 <= i < new.len() && 0 <= j < new.len() && i != j && (#[trigger] new[i]).parent_id is None
                && (#[trigger] new[j]).parent_id is None implies new[i].name != new[j].name by {
            if i != pos {
                assert(new[i] == fs[src(i)]);
            }
            if j != pos {
                assert(new[j] == fs[src(j)]);
            }
        }
    }
    assert(notes_filed(new, s.notes));
}

/// What stays when the folder at place `i` is replaced by one with the same
/// id.
pub proof fn lemma_update_lookup(fs: Seq<FolderView>, i: int, g: FolderView)
    requires
        unique_ids(fs),
        0 <= i < fs.len(),
        g.id == fs[i].id,
    ensures
        unique_ids(fs.update(i, g)),
        forall|x: Seq<char>| has_folder(fs.update(i, g), x) <==> has_folder(fs, x),
        forall|y: Seq<char>| y != g.id ==> parent_of(fs.update(i, g), y) == parent_of(fs, y),
        parent_of(fs.update(i, g), g.id) == g.parent_id,
{
    let new = fs.update(i, g);
    assert forall|x: Seq<char>| has_folder(new, x) <==> has_folder(fs, x) by {
        if has_folder(new, x) {
            let j = choose|j: int| 0 <= j < new.len() && (#[trigger] new[j]).id == x;
            assert(fs[j].id == x);
        }
        if has_folder(fs, x) {
            let j = choose|j: int| 0 <= j < fs.len() && (#[trigger] fs[j]).id == x;
            assert(new[j].id == x);
        }
    }
    assert(unique_ids(new)) by {
        assert forall|a: int, b: int|
            0 <= a < new.len() && 0 <= b < new.len() && a != b implies (#[trigger] new[a]).id != (
            #[trigger] new[b]).id by {
            assert(new[a].id == fs[a].id);
            assert(new[b].id == fs[b].id);
        }
    }
    assert forall|y: Seq<char>| y != g.id implies parent_of(new, y) == parent_of(fs, y) by {
        if has_folder(fs, y) {
            lemma_index_in_range(new, y);
            let j = index_of(new, y);
            assert(new[j] == fs[j]);
            lemma_index_of(fs, j);
        }
    }
    lemma_index_of(new, i);
}

/// The folder with the id, where there is one.
pub open spec fn folder_of(fs: Seq<FolderView>, id: Seq<char>) -> FolderView {
    fs[index_of(fs, id)]
}

/// Why the folder cannot be renamed, if it cannot.
pub open spec fn rename_folder_error(fs: Seq<FolderView>, id: Seq<char>, name: Seq<char>) -> Option<
    StoreError,
> {
    if !has_folder(fs, id) {
        Some(StoreError::FolderNotFound)
    } else if folder_of(fs, id).parent_id is None && root_name_taken(fs, name, id) {
        Some(StoreError::DuplicateRootName)
    } else {
        None
    }
}

/// `fs` after the folder with the id was renamed at time `now`.
pub open spec fn renamed(fs: Seq<FolderView>, id: Seq<char>, name: Seq<char>, now: i64) -> Seq<
    FolderView,
> {
    fs.update(index_of(fs, id), FolderView { name: name, updated_at: now, ..folder_of(fs, id) })
}

/// Why the folder cannot be moved below `parent`, if it cannot.
pub open spec fn reparent_folder_error(
    fs: Seq<FolderView>,
    id: Seq<char>,
    parent: Option<Seq<char>>,
) -> Option<StoreError> {
    if parent == Some(id) {
        Some(StoreError::SelfParent)
    } else if !has_folder(fs, id) {
        Some(StoreError::FolderNotFound)
    } else if parent is Some && !has_folder(fs, parent->0) {
        Some(StoreError::ParentNotFound)
    } else if parent is Some && under(fs, parent->0, id) {
        Some(StoreError::Cycle)
    } else if parent is None && root_name_taken(fs, folder_of(fs, id).name, id) {
        Some(StoreError::DuplicateRootName)
    } else {
        None
    }
}

/// `fs` after the folder with the id was moved below `parent` at time `now`.
pub open spec fn reparented(
    fs: Seq<FolderView>,
    id: Seq<char>,
    parent: Option<Seq<char>>,
    now: i64,
) -> Seq<FolderView> {
    fs.update(
        index_of(fs, id),
        FolderView { parent_id: parent, updated_at: now, ..folder_of(fs, id) },
    )
}

/// The folders after the folder with the id was renamed, or why it cannot
/// be.
pub open spec fn rename_result(fs: Seq<FolderView>, id: Seq<char>, name: Seq<char>, now: i64) -> Result<
    Seq<FolderView>,
    StoreError,
> {
    match rename_folder_error(fs, id, name) {
        Some(e) => Err(e),
        None => Ok(renamed(fs, id, name, now)),
    }
}

/// The folders after the folder with the id was moved, or why it cannot
/// be.
pub open spec fn reparent_result(
    fs: Seq<FolderView>,
    id: Seq<char>,
    parent: Option<Seq<char>>,
    now: i64,
) -> Result<Seq<FolderView>, StoreError> {
    match reparent_folder_error(fs, id, parent) {
        Some(e) => Err(e),
        None => Ok(reparented(fs, id, parent, now)),
    }
}

/// The folders after the folder with the id got a new name, where one is
/// given, and then a new parent, where one is given; or the first reason
/// why it cannot.
pub open spec fn update_folder_result(
    fs: Seq<FolderView>,
    id: Seq<char>,
    name: Option<Seq<char>>,
    parent: Option<Option<Seq<char>>>,
    now: i64,
) -> Result<Seq<FolderView>, StoreError> {
    let named = match name {
        Some(n) => rename_result(fs, id, n, now),
        None => Ok(fs),
    };
    match named {
        Ok(mid) => match parent {
            Some(p) => reparent_result(mid, id, p, now),
            None => Ok(mid),
        },
        Err(e) => Err(e),
    }
}

/// What a new parent holds, as mathematical values.
pub open spec fn move_view(parent: Option<Option<String>>) -> Option<Option<Seq<char>>> {
    match parent {
        Some(p) => Some(opt_view(p)),
        None => None,
    }
}

/// A store stays well formed when a folder is renamed, if no other
/// root-level folder has the name where the folder is one.
pub proof fn lemma_rename_wf(s: StoreView, i: int, name: Seq<char>, now: i64)
    requires
        store_wf(s),
        0 <= i < s.folders.len(),
        s.folders[i].parent_id is None ==> !root_name_taken(s.folders, name, s.folders[i].id),
    ensures
        store_wf(
            StoreView {
                folders: s.folders.update(
                    i,
                    FolderView { name: name, updated_at: now, ..s.folders[i] },
                ),
                notes: s.notes,
            },
        ),
{
    let fs = s.folders;
    let g = FolderView { name: name, updated_at: now, ..fs[i] };
    let new = fs.update(i, g);
    lemma_update_lookup(fs, i, g);
    lemma_index_of(fs, i);
    let keep = |y: Seq<char>| true;
    assert forall|y: Seq<char>| parent_of(new, y) == parent_of(fs, y) by {}
    assert forall|x: Seq<char>, k: nat| up(new, x, k) == up(fs, x, k) by {
        lemma_up_agree(fs, new, keep, x, k);
    }
    assert(acyclic(new)) by {
        assert forall|j: int| 0 <= j < new.len() implies rooted(new, (#[trigger] new[j]).id) by {
            let oid = fs[j].id;
            assert(rooted(fs, oid));
            let k = choose|k: nat| up(fs, oid, k) is None;
            assert(up(new, oid, k) is None);
        }
    }
    assert(parents_exist(new)) by {
        assert forall|j: int| 0 <= j < new.len() implies ((#[trigger] new[j]).parent_id matches Some(
            p,
        ) ==> has_folder(new, p)) by {
            assert(new[j].parent_id == fs[j].parent_id);
        }
    }
    assert(oldest_first(new)) by {
        assert forall|a: int, b: int| 0 <= a < b < new.len() implies (#[trigger] new[a]).created_at
            <= (#[trigger] new[b]).created_at by {
            assert(new[a].created_at == fs[a].created_at);
            assert(new[b].created_at == fs[b].created_at);
        }
    }
    assert(root_names_unique(new)) by {
        assert forall|a: int, b: int|
            0 <= a < new.len() && 0 <= b < new.len() && a != b && (#[trigger] new[a]).parent_id is None
                && (#[trigger] new[b]).parent_id is None implies new[a].name != new[b].name by {
            assert(fs[a].parent_id is None && fs[b].parent_id is None);
            if a == i {
                assert(fs[b].id != fs[i].id);
            } else if b == i {
                assert(fs[a].id != fs[i].id);
            }
        }
    }
    assert(notes_filed(new, s.notes));
}

/// Below a folder that was moved, every chain still ends.
proof fn lemma_moved_rooted(
    fs: Seq<FolderView>,
    new: Seq<FolderView>,
    id: Seq<char>,
    y: Seq<char>,
    k: nat,
)
    requires
        up(fs, y, k) == Some(id),
        rooted(new, id),
        forall|z: Seq<char>| z != id ==> parent_of(new, z) == parent_of(fs, z),
    ensures
        rooted(new, y),
    decreases k,
{
    if y != id {
        let q = parent_of(fs, y)->0;
        assert(up(fs, q, (k - 1) as nat) == Some(id));
        lemma_moved_rooted(fs, new, id, q, (k - 1) as nat);
        let m = choose|m: nat| up(new, q, m) is None;
        assert(up(new, y, m + 1) is None);
    }
}

/// A store stays well formed when a folder moves below a folder that does
/// not lie under it, or to the root level where its name is free there.
pub proof fn lemma_reparent_wf(s: StoreView, i: int, parent: Option<Seq<char>>, now: i64)
    requires
        store_wf(s),
        0 <= i < s.folders.len(),
        parent matches Some(p) ==> has_folder(s.folders, p) && !under(
            s.folders,
            p,
            s.folders[i].id,
        ),
        parent is None ==> !root_name_taken(s.folders, s.folders[i].name, s.folders[i].id),
    ensures
        store_wf(
            StoreView {
                folders: s.folders.update(
                    i,
                    FolderView { parent_id: parent, updated_at: now, ..s.folders[i] },
                ),
                notes: s.notes,
            },
        ),
{
    let fs = s.folders;
    let id = fs[i].id;
    let g = FolderView { parent_id: parent, updated_at: now, ..fs[i] };
    let new = fs.update(i, g);
    lemma_update_lookup(fs, i, g);
    lemma_index_of(fs, i);
    let keep = |y: Seq<char>| !under(fs, y, id);
    assert forall|y: Seq<char>| #[trigger] keep(y) implies parent_of(new, y) == parent_of(fs, y)
        && (parent_of(fs, y) matches Some(p) ==> keep(p)) by {
        assert(up(fs, id, 0) == Some(id));
        assert(y != id);
        match parent_of(fs, y) {
            Some(p) => {
                if under(fs, p, id) {
                    lemma_under_step(fs, y, id);
                }
            },
            None => {},
        }
    }
    assert(rooted(new, id)) by {
        match parent {
            Some(p) => {
                let j = choose|j: int| 0 <= j < fs.len() && (#[trigger] fs[j]).id == p;
                assert(rooted(fs, fs[j].id));
                let k = choose|k: nat| up(fs, p, k) is None;
                lemma_up_agree(fs, new, keep, p, k);
                assert(up(new, id, k + 1) is None);
            },
            None => {
                assert(up(new, id, 1) is None);
            },
        }
    }
    assert(acyclic(new)) by {
        assert forall|j: int| 0 <= j < new.len() implies rooted(new, (#[trigger] new[j]).id) by {
            let y = fs[j].id;
            assert(new[j].id == y);
            if under(fs, y, id) {
                let k = choose|k: nat| up(fs, y, k) == Some(id);
                lemma_moved_rooted(fs, new, id, y, k);
            } else {
                assert(rooted(fs, y));
                let k = choose|k: nat| up(fs, y, k) is None;
                lemma_up_agree(fs, new, keep, y, k);
            }
        }
    }
    assert(parents_exist(new)) by {
        assert forall|j: int| 0 <= j < new.len() implies ((#[trigger] new[j]).parent_id matches Some(
            p,
        ) ==> has_folder(new, p)) by {
            if j != i {
                assert(new[j].parent_id == fs[j].parent_id);
            }
        }
    }
    assert(oldest_first(new)) by {
        assert forall|a: int, b: int| 0 <= a < b < new.len() implies (#[trigger] new[a]).created_at
            <= (#[trigger] new[b]).created_at by {
            assert(new[a].created_at == fs[a].created_at);
            assert(new[b].created_at == fs[b].created_at);
        }
    }
    assert(root_names_unique(new)) by {
        assert forall|a: int, b: int|
            0 <= a < new.len() && 0 <= b < new.len() && a != b && (#[trigger] new[a]).parent_id is None
                && (#[trigger] new[b]).parent_id is None implies new[a].name != new[b].name by {
            assert(new[a].name == fs[a].name && new[b].name == fs[b].name);
            if a == i {
                assert(fs[b].parent_id is None && fs[b].id != id);
            } else if b == i {
                assert(fs[a].parent_id is None && fs[a].id != id);
            } else {
                assert(fs[a].parent_id is None && fs[b].parent_id is None);
            }
        }
    }
    assert(notes_filed(new, s.notes));
}

impl Store {
    /// Whether `id` is `root` or lies below it in the forest.
    pub fn is_under(&self, id: &str, root: &str) -> (r: bool)
        requires
            self.wf(),
        ensures
            r == under(self@.folders, id@, root@),
    {
        let ghost fs = self@.folders;
        let target = root.to_owned();
        let start = id.to_owned();
        if start == target {
            assert(up(fs, id@, 0) == Some(root@));
            return true;
        }
        let n = self.folders.len();
        let mut cur: usize = match self.find_folder(id) {
            Some(i) => i,
            None => {
                proof {
                    lemma_absent_rooted(fs, id@);
                    assert forall|j: nat| up(fs, id@, j) != Some(root@) by {
                        if j >= 1 {
                            lemma_up_none_stays(fs, id@, 1, j);
                        }
                    }
                }
                return false;
            },
        };
        let mut k: usize = 0;
        while k < n
            invariant
                self.wf(),
                fs == self@.folders,
                n == self.folders.len(),
                target@ == root@,
                k <= n,
                cur < n,
                up(fs, id@, k as nat) == Some(fs[cur as int].id),
                forall|j: nat| j <= k ==> up(fs, id@, j) != Some(root@),
            decreases n - k,
        {
            proof {
                lemma_index_of(fs, cur as int);
                lemma_up_add(fs, id@, k as nat, 1);
            }
            match &self.folders[cur].parent_id {
                None => {
                    proof {
                        assert(fs[cur as int] == self.folders@[cur as int]@);
                        assert(parent_of(fs, fs[cur as int].id) is None);
                        assert(up(fs, id@, (k + 1) as nat) is None);
                        assert forall|j: nat| up(fs, id@, j) != Some(root@) by {
                            if j > k {
                                lemma_up_none_stays(fs, id@, (k + 1) as nat, j);
                            }
                        }
                    }
                    return false;
                },
                Some(p) => {
                    proof {
                        assert(fs[cur as int] == self.folders@[cur as int]@);
                        assert(parent_of(fs, fs[cur as int].id) == Some(p@));
                        reveal_with_fuel(up, 2);
                        assert(up(fs, fs[cur as int].id, 1) == Some(p@));
                    }
                    if *p == target {
                        return true;
                    }
                    match self.find_folder(p.as_str()) {
                        Some(i) => {
                            cur = i;
                            k += 1;
                        },
                        None => {
                            assert(false);
                            return false;
                        },
                    }
                },
            }
        }
        proof {
            assert(rooted(fs, id@)) by {
                let i = choose|i: int| 0 <= i < fs.len() && (#[trigger] fs[i]).id == id@;
            }
            lemma_chain_bound(fs, id@);
            assert forall|j: nat| up(fs, id@, j) != Some(root@) by {
                if j > k {
                    lemma_up_none_stays(fs, id@, (n + 1) as nat, j);
                }
            }
        }
        false
    }
}

impl Store {
    /// Whether a root-level folder other than the one with id `except` has
    /// the name.
    pub fn root_name_in_use(&self, name: &str, except: &str) -> (r: bool)
        ensures
            r == root_name_taken(self@.folders, name@, except@),
    {
        let wanted = name.to_owned();
        let spared = except.to_owned();
        let mut i: usize = 0;
        while i < self.folders.len()
            invariant
                i <= self.folders.len(),
                wanted@ == name@,
                spared@ == except@,
                forall|j: int|
                    0 <= j < i ==> !((#[trigger] self@.folders[j]).parent_id is None
                        && self@.folders[j].name == name@ && self@.folders[j].id != except@),
            decreases self.folders.len() - i,
        {
            let f = &self.folders[i];
            assert(self@.folders[i as int] == f@);
            if f.parent_id.is_none() && f.name == wanted && !(f.id == spared) {
                return true;
            }
            i += 1;
        }
        false
    }

    /// Puts `f` in at its place by age.
    pub(crate) fn put_folder(&mut self, f: Folder)
        requires
            old(self).wf(),
            !has_folder(old(self)@.folders, f@.id),
            f@.parent_id matches Some(p) ==> has_folder(old(self)@.folders, p),
            f@.parent_id is None ==> !root_name_taken(old(self)@.folders, f@.name, f@.id),
        ensures
            final(self).wf(),
            final(self)@ == (StoreView {
                folders: with_folder(old(self)@.folders, f@),
                notes: old(self)@.notes,
            }),
            forall|x: Seq<char>|
                has_folder(final(self)@.folders, x) <==> has_folder(old(self)@.folders, x) || x
                    == f@.id,
            forall|x: Seq<char>, root: Seq<char>|
                x != f@.id ==> (under(final(self)@.folders, x, root) <==> under(
                    old(self)@.folders,
                    x,
                    root,
                )),
    {
        let ghost fs = self@.folders;
        let t = f.created_at;
        let mut pos: usize = self.folders.len();
        assert(fs.take(pos as int) =~= fs);
        while pos > 0 && self.folders[pos - 1].created_at > t
            invariant
                pos <= self.folders.len(),
                fs == self@.folders,
                age_slot(fs, t) == age_slot(fs.take(pos as int), t),
            decreases pos,
        {
            proof {
                let head = fs.take(pos as int);
                assert(head.last() == fs[pos - 1]);
                assert(head.drop_last() =~= fs.take(pos - 1));
            }
            pos -= 1;
        }
        proof {
            let head = fs.take(pos as int);
            if pos > 0 {
                assert(head.last() == fs[pos - 1]);
            }
            assert(age_slot(fs, t) == pos);
            lemma_age_slot(fs, t);
            lemma_insert_folder_wf(self@, f@, pos as int);
            lemma_folder_views_insert(self.folders@, pos as int, f);
        }
        self.folders.insert(pos, f);
    }

    /// Creates a folder. `id` is its new id and `now` the time of creation.
    ///
    /// The parent, where one is given, has to be a folder other than the new
    /// one and may not lie below it; the id has to be free; a root-level
    /// folder needs a name that no other root-level folder has. On an error
    /// the store is left as it was.
    pub fn create_folder(
        &mut self,
        id: String,
        name: String,
        parent_id: Option<String>,
        now: i64,
    ) -> (r: Result<(), StoreError>)
        requires
            old(self).wf(),
        ensures
            final(self).wf(),
            match create_folder_error(old(self)@.folders, id@, name@, opt_view(parent_id)) {
                Some(e) => r == Err::<(), StoreError>(e) && final(self)@ == old(self)@,
                None => r is Ok && final(self)@ == (StoreView {
                    folders: with_folder(
                        old(self)@.folders,
                        FolderView {
                            id: id@,
                            name: name@,
                            created_at: now,
                            updated_at: now,
                            parent_id: opt_view(parent_id),
                        },
                    ),
                    notes: old(self)@.notes,
                }),
            },
    {
        match &parent_id {
            Some(p) => {
                if *p == id {
                    return Err(StoreError::SelfParent);
                }
                if self.find_folder(p.as_str()).is_none() {
                    return Err(StoreError::ParentNotFound);
                }
                if self.is_under(p.as_str(), id.as_str()) {
                    return Err(StoreError::Cycle);
                }
            },
            None => {},
        }
        if self.find_folder(id.as_str()).is_some() {
            return Err(StoreError::DuplicateId);
        }
        if parent_id.is_none() && self.root_name_in_use(name.as_str(), id.as_str()) {
            return Err(StoreError::DuplicateRootName);
        }
        let f = Folder { id, name, created_at: now, updated_at: now, parent_id };
        self.put_folder(f);
        Ok(())
    }
}

impl Store {
    /// Gives the folder a new name and stamps it with `now`.
    ///
    /// The folder has to exist; a root-level folder needs a name that no
    /// other root-level folder has. On an error the store is left as it was.
    pub fn rename_folder(&mut self, id: &str, name: String, now: i64) -> (r: Result<
        (),
        StoreError,
    >)
        requires
            old(self).wf(),
        ensures
            final(self).wf(),
            final(self)@.notes == old(self)@.notes,
            match rename_folder_error(old(self)@.folders, id@, name@) {
                Some(e) => r == Err::<(), StoreError>(e) && final(self)@ == old(self)@,
                None => r is Ok && final(self)@.folders == renamed(
                    old(self)@.folders,
                    id@,
                    name@,
                    now,
                ),
            },
    {
        let i = match self.find_folder(id) {
            Some(i) => i,
            None => {
                return Err(StoreError::FolderNotFound);
            },
        };
        assert(self@.folders[i as int] == self.folders@[i as int]@);
        if self.folders[i].parent_id.is_none() && self.root_name_in_use(name.as_str(), id) {
            return Err(StoreError::DuplicateRootName);
        }
        proof {
            lemma_rename_wf(self@, i as int, name@, now);
        }
        self.folders[i].name = name;
        self.folders[i].updated_at = now;
        assert(self@.folders =~= renamed(old(self)@.folders, id@, name@, now));
        Ok(())
    }

    /// Moves the folder below `parent_id`, or to the root level for `None`,
    /// and stamps it with `now`.
    ///
    /// A folder cannot be its own parent, and its new parent cannot be a
    /// folder that lies below it. The folder and the parent have to exist; a
    /// folder that moves to the root level needs a name that no other
    /// root-level folder has. On an error the store is left as it was.
    pub fn reparent_folder(&mut self, id: &str, parent_id: Option<String>, now: i64) -> (r: Result<
        (),
        StoreError,
    >)
        requires
            old(self).wf(),
        ensures
            final(self).wf(),
            final(self)@.notes == old(self)@.notes,
            match reparent_folder_error(old(self)@.folders, id@, opt_view(parent_id)) {
                Some(e) => r == Err::<(), StoreError>(e) && final(self)@ == old(self)@,
                None => r is Ok && final(self)@.folders == reparented(
                    old(self)@.folders,
                    id@,
                    opt_view(parent_id),
                    now,
                ),
            },
    {
        let own = id.to_owned();
        match &parent_id {
            Some(p) => {
                if *p == own {
                    return Err(StoreError::SelfParent);
                }
            },
            None => {},
        }
        let i = match self.find_folder(id) {
            Some(i) => i,
            None => {
                return Err(StoreError::FolderNotFound);
            },
        };
        assert(self@.folders[i as int] == self.folders@[i as int]@);
        match &parent_id {
            Some(p) => {
                if self.find_folder(p.as_str()).is_none() {
                    return Err(StoreError::ParentNotFound);
                }
                if self.is_under(p.as_str(), id) {
                    return Err(StoreError::Cycle);
                }
            },
            None => {
                if self.root_name_in_use(self.folders[i].name.as_str(), id) {
                    return Err(StoreError::DuplicateRootName);
                }
            },
        }
        proof {
            lemma_reparent_wf(self@, i as int, opt_view(parent_id), now);
        }
        self.folders[i].parent_id = parent_id;
        self.folders[i].updated_at = now;
        assert(self@.folders =~= reparented(old(self)@.folders, id@, opt_view(parent_id), now));
        Ok(())
    }
}

impl Store {
    /// Gives the folder a new name, a new parent, or both, as one step:
    /// either all that is asked for is done, or the store is left as it
    /// was. The name is set first.
    pub fn update_folder(
        &mut self,
        id: &str,
        name: Option<String>,
        parent_id: Option<Option<String>>,
        now: i64,
    ) -> (r: Result<(), StoreError>)
        requires
            old(self).wf(),
        ensures
            final(self).wf(),
            final(self)@.notes == old(self)@.notes,
            match update_folder_result(
                old(self)@.folders,
                id@,
                opt_view(name),
                move_view(parent_id),
                now,
            ) {
                Ok(fs) => r is Ok && final(self)@.folders == fs,
                Err(e) => r == Err::<(), StoreError>(e) && final(self)@ == old(self)@,
            },
    {
        let backup = self.clone();
        match name {
            Some(n) => {
                match self.rename_folder(id, n, now) {
                    Ok(()) => {},
                    Err(e) => {
                        return Err(e);
                    },
                }
            },
            None => {},
        }
        match parent_id {
            Some(p) => {
                match self.reparent_folder(id, p, now) {
                    Ok(()) => {},
                    Err(e) => {
                        *self = backup;
                        return Err(e);
                    },
                }
            },
            None => {},
        }
        Ok(())
    }
}

/// Whether `r` and `after` are what comes of creating a folder under the id
/// `id` in the store `before`: the error that stands against it and the
/// store as it was, or the id and the store with the new folder.
pub open spec fn is_new_folder(
    before: StoreView,
    id: Seq<char>,
    name: Seq<char>,
    parent: Option<Seq<char>>,
    now: i64,
    r: Result<String, StoreError>,
    after: StoreView,
) -> bool {
    match create_folder_error(before.folders, id, name, parent) {
        Some(e) => r matches Err(got) && got == e && after == before,
        None => r matches Ok(got) && got@ == id && after == (StoreView {
            folders: with_folder(
                before.folders,
                FolderView { id, name, created_at: now, updated_at: now, parent_id: parent },
            ),
            notes: before.notes,
        }),
    }
}

impl Store {
    /// Creates a folder and returns its id, which the store draws from
    /// `ids` at the time of the clock. `now` is the time of creation.
    ///
    /// The id is made of the time, the process and the count of `ids`, whose
    /// count goes up by one. What stands against the folder is what stands
    /// against it in [`Store::create_folder`].
    pub fn new_folder(
        &mut self,
        ids: &mut IdSource,
        name: String,
        parent_id: Option<String>,
        now: i64,
    ) -> (r: Result<String, StoreError>)
        requires
            old(self).wf(),
        ensures
            final(self).wf(),
            final(ids).process == old(ids).process,
            final(ids).count == next_count(old(ids).count),
            r matches Ok(got) ==> safe_id(got@),
            exists|time: nat|
                is_new_folder(
                    old(self)@,
                    #[trigger] id_text(time, old(ids).process as nat, old(ids).count as nat),
                    name@,
                    opt_view(parent_id),
                    now,
                    r,
                    final(self)@,
                ),
    {
        let time = now_nanos();
        let id = ids.next_id(time);
        let got = id.clone();
        let r = match self.create_folder(id, name, parent_id, now) {
            Ok(()) => Ok(got),
            Err(e) => Err(e),
        };
        assert(is_new_folder(
            old(self)@,
            id_text(time as nat, old(ids).process as nat, old(ids).count as nat),
            name@,
            opt_view(parent_id),
            now,
            r,
            self@,
        ));
        r
    }
}

} // verus!
