//! The most recently updated notes, as a search with no text returns them.

use crate::flags::{
    count_unset, lemma_count_unset_all, lemma_count_unset_none, lemma_count_unset_set,
};
use crate::folders::folder_of;
use crate::model::{FolderView, NoteView};
use crate::reading::{preview, preview_of};
use crate::store::Store;
use vstd::prelude::*;

verus! {

/// The number of notes returned where the caller names none.
pub const DEFAULT_LIMIT: i64 = 80;

/// The largest number of notes returned.
pub const MAX_LIMIT: i64 = 200;

/// The number of notes to return for the limit asked for: the limit, or 80
/// where none is given, brought into the range from 1 to 200.
pub open spec fn clamped(limit: Option<i64>) -> int {
    let asked = match limit {
        Some(l) => l,
        None => DEFAULT_LIMIT,
    };
    if asked < 1 {
        1
    } else if asked > MAX_LIMIT {
        MAX_LIMIT as int
    } else {
        asked as int
    }
}

/// The number of notes to return for the limit asked for.
pub fn clamp_limit(limit: Option<i64>) -> (r: usize)
    ensures
        r == clamped(limit),
{
    let asked: i64 = match limit {
        Some(l) => l,
        None => DEFAULT_LIMIT,
    };
    if asked < 1 {
        1
    } else if asked > MAX_LIMIT {
        200
    } else {
        asked as usize
    }
}

/// One note of a search result.
#[derive(Clone, Debug, PartialEq, Eq)]
pub struct NoteHit {
    pub id: String,
    pub folder_id: String,
    pub title: String,
    pub preview: String,
    pub updated_at: i64,
    pub folder_name: String,
}

/// What a hit holds, as mathematical values.
pub struct NoteHitView {
    pub id: Seq<char>,
    pub folder_id: Seq<char>,
    pub title: Seq<char>,
    pub preview: Seq<char>,
    pub updated_at: i64,
    pub folder_name: Seq<char>,
}

impl View for NoteHit {
    type V = NoteHitView;

    open spec fn view(&self) -> NoteHitView {
        NoteHitView {
            id: self.id@,
            folder_id: self.folder_id@,
            title: self.title@,
            preview: self.preview@,
            updated_at: self.updated_at,
            folder_name: self.folder_name@,
        }
    }
}

/// The hit that shows the note `n`.
pub open spec fn hit_of(fs: Seq<FolderView>, n: NoteView) -> NoteHitView {
    NoteHitView {
        id: n.id,
        folder_id: n.folder_id,
        title: n.title,
        preview: preview_of(n.body),
        updated_at: n.updated_at,
        folder_name: folder_of(fs, n.folder_id).name,
    }
}

/// `picks` names the `k` most recently updated notes of `ns`, or all of them
/// where there are fewer, each once, newest first.
pub open spec fn picks_newest(ns: Seq<NoteView>, picks: Seq<int>, k: int) -> bool {
    &&& picks.len() == if k < ns.len() {
        k
    } else {
        ns.len() as int
    }
    &&& forall|a: int| 0 <= a < picks.len() ==> 0 <= #[trigger] picks[a] < ns.len()
    &&& picks.no_duplicates()
    &&& forall|a: int, b: int|
        0 <= a < b < picks.len() ==> ns[#[trigger] picks[a]].updated_at >= ns[#[trigger] picks[b]].updated_at
    &&& forall|a: int, j: int|
        0 <= a < picks.len() && 0 <= j < ns.len() && !picks.contains(j) ==> (#[trigger] ns[j]).updated_at
            <= ns[#[trigger] picks[a]].updated_at
}

impl Store {
    /// The hit that shows the note at place `i`.
    pub fn hit_at(&self, i: usize) -> (r: NoteHit)
        requires
            self.wf(),
            i < self@.notes.len(),
        ensures
            r@ == hit_of(self@.folders, self@.notes[i as int]),
    {
        let n = &self.notes[i];
        assert(self@.notes[i as int] == n@);
        let folder_name = match self.find_folder(n.folder_id.as_str()) {
            Some(f) => {
                assert(self@.folders[f as int] == self.folders@[f as int]@);
                self.folders[f].name.clone()
            },
            None => {
                assert(false);
                String::new()
            },
        };
        NoteHit {
            id: n.id.clone(),
            folder_id: n.folder_id.clone(),
            title: n.title.clone(),
            preview: preview(n.body.as_str()),
            updated_at: n.updated_at,
            folder_name,
        }
    }

    /// The most recently updated notes, newest first: as many as `limit`
    /// asks for, between 1 and 200, and 80 where it asks for none.
    pub fn recent(&self, limit: Option<i64>) -> (r: Vec<NoteHit>)
        requires
            self.wf(),
        ensures
            exists|picks: Seq<int>|
                {
                    &&& #[trigger] picks_newest(self@.notes, picks, clamped(limit))
                    &&& r.len() == picks.len()
                    &&& forall|a: int|
                        0 <= a < r.len() ==> (#[trigger] r[a])@ == hit_of(
                            self@.folders,
                            self@.notes[picks[a]],
                        )
                },
    {
        let ghost fs = self@.folders;
        let ghost ns = self@.notes;
        let n = self.notes.len();
        let k = clamp_limit(limit);
        let want: usize = if k < n {
            k
        } else {
            n
        };
        let mut taken: Vec<bool> = Vec::new();
        let mut i: usize = 0;
        while i < n
            invariant
                i <= n,
                taken.len() == i,
                forall|j: int| 0 <= j < i ==> !taken[j],
            decreases n - i,
        {
            taken.push(false);
            i += 1;
        }
        proof {
            lemma_count_unset_all(taken@);
        }
        let mut out: Vec<NoteHit> = Vec::new();
        let ghost mut picks: Seq<int> = Seq::empty();
        while out.len() < want
            invariant
                self.wf(),
                fs == self@.folders,
                ns == self@.notes,
                n == ns.len(),
                taken.len() == n,
                want <= n,
                out.len() == picks.len(),
                picks.len() <= want,
                count_unset(taken@) == n - picks.len(),
                forall|a: int| 0 <= a < picks.len() ==> 0 <= #[trigger] picks[a] < n && taken[picks[a]],
                forall|j: int| 0 <= j < n && #[trigger] taken[j] ==> picks.contains(j),
                picks.no_duplicates(),
                forall|a: int, b: int|
                    0 <= a < b < picks.len() ==> ns[#[trigger] picks[a]].updated_at >= ns[#[trigger] picks[b]].updated_at,
                forall|a: int, j: int|
                    0 <= a < picks.len() && 0 <= j < n && !taken[j] ==> (#[trigger] ns[j]).updated_at
                        <= ns[#[trigger] picks[a]].updated_at,
                forall|a: int|
                    0 <= a < out.len() ==> (#[trigger] out[a])@ == hit_of(fs, ns[picks[a]]),
            decreases want - out.len(),
        {
            let mut best: Option<usize> = None;
            let mut j: usize = 0;
            while j < n
                invariant
                    j <= n,
                    n == ns.len(),
                    ns == self@.notes,
                    taken.len() == n,
                    match best {
                        Some(b) => b < j && !taken[b as int] && forall|c: int|
                            0 <= c < j && !taken[c] ==> (#[trigger] ns[c]).updated_at
                                <= ns[b as int].updated_at,
                        None => forall|c: int| 0 <= c < j ==> taken[c],
                    },
                decreases n - j,
            {
                assert(ns[j as int] == self.notes@[j as int]@);
                if !taken[j] {
                    match best {
                        Some(b) => {
                            assert(ns[b as int] == self.notes@[b as int]@);
                            if self.notes[j].updated_at > self.notes[b].updated_at {
                                best = Some(j);
                            }
                        },
                        None => {
                            best = Some(j);
                        },
                    }
                }
                j += 1;
            }
            match best {
                Some(b) => {
                    let hit = self.hit_at(b);
                    proof {
                        lemma_count_unset_set(taken@, b as int);
                        assert(!picks.contains(b as int));
                    }
                    let ghost before = picks;
                    let ghost was = taken@;
                    taken.set(b, true);
                    out.push(hit);
                    proof {
                        picks = picks.push(b as int);
                        assert forall|j: int| 0 <= j < n && #[trigger] taken[j] implies picks.contains(
                            j,
                        ) by {
                            if j == b {
                                assert(picks[before.len() as int] == b);
                            } else {
                                assert(was[j]);
                                let a = choose|a: int| 0 <= a < before.len() && before[a] == j;
                                assert(picks[a] == j);
                            }
                        }
                        assert forall|a: int, c: int|
                            0 <= a < c < picks.len() implies ns[#[trigger] picks[a]].updated_at
                            >= ns[#[trigger] picks[c]].updated_at by {
                            if c == before.len() {
                                assert(picks[a] == before[a]);
                                assert(!was[b as int]);
                            } else {
                                assert(picks[a] == before[a] && picks[c] == before[c]);
                            }
                        }
                        assert forall|a: int, j: int|
                            0 <= a < picks.len() && 0 <= j < n && !taken[j] implies (
                        #[trigger] ns[j]).updated_at <= ns[#[trigger] picks[a]].updated_at by {
                            assert(!was[j]);
                            if a < before.len() {
                                assert(picks[a] == before[a]);
                            }
                        }
                        assert forall|a: int| 0 <= a < out.len() implies (#[trigger] out[a])@
                            == hit_of(fs, ns[picks[a]]) by {
                            if a < before.len() {
                                assert(picks[a] == before[a]);
                            }
                        }
                    }
                },
                None => {
                    proof {
                        lemma_count_unset_none(taken@);
                    }
                    assert(false);
                    return out;
                },
            }
        }
        proof {
            assert forall|a: int, j: int|
                0 <= a < picks.len() && 0 <= j < ns.len() && !picks.contains(j) implies (
            #[trigger] ns[j]).updated_at <= ns[#[trigger] picks[a]].updated_at by {
                if taken[j] {
                    assert(picks.contains(j));
                }
            }
            assert(picks_newest(ns, picks, clamped(limit)));
        }
        out
    }
}

} // verus!
