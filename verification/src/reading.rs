//! Reading the store: single notes, listings, the snapshot and the sync
//! token.

use crate::folders::folder_of;
use crate::ident::{is_safe_id, safe_id};
use crate::model::{
    folder_views, lemma_note_views_push, note_views, Folder, Note, NoteView, StoreError,
};
use crate::store::{has_note, note_index, Store, StoreView};
use vstd::prelude::*;

verus! {

/// How many characters of a body a preview shows at most.
pub const PREVIEW_CHARS: usize = 200;

/// The start of `body` that a preview shows.
pub open spec fn preview_of(body: Seq<char>) -> Seq<char> {
    if body.len() <= PREVIEW_CHARS {
        body
    } else {
        body.take(PREVIEW_CHARS as int)
    }
}

/// The start of `body` that a preview shows.
pub fn preview(body: &str) -> (r: String)
    ensures
        r@ == preview_of(body@),
{
    let n = body.unicode_len();
    if n <= PREVIEW_CHARS {
        body.to_owned()
    } else {
        let head = body.substring_char(0, PREVIEW_CHARS);
        assert(body@.subrange(0, PREVIEW_CHARS as int) =~= body@.take(PREVIEW_CHARS as int));
        head.to_owned()
    }
}

/// A note as a markdown document: the title as a heading, a blank line,
/// and the body.
pub open spec fn markdown_text(title: Seq<char>, body: Seq<char>) -> Seq<char> {
    seq!['#', ' '] + title + seq!['\n', '\n'] + body
}

/// A note as a markdown document.
pub fn markdown_of(title: &str, body: &str) -> (r: String)
    ensures
        r@ == markdown_text(title@, body@),
{
    let mut out = "# ".to_owned();
    out.append(title);
    out.append("\n\n");
    out.append(body);
    proof {
        reveal_strlit("# ");
        reveal_strlit("\n\n");
        assert("# "@ =~= seq!['#', ' ']);
        assert("\n\n"@ =~= seq!['\n', '\n']);
        assert(out@ =~= markdown_text(title@, body@));
    }
    out
}

/// A note with the name of its folder.
#[derive(Clone, Debug, PartialEq, Eq)]
pub struct NoteDetail {
    pub note: Note,
    pub folder_name: String,
}

/// A note without its body, with a preview in its place.
#[derive(Clone, Debug, PartialEq, Eq)]
pub struct NoteMetadata {
    pub id: String,
    pub folder_id: String,
    pub title: String,
    pub preview: String,
    pub created_at: i64,
    pub updated_at: i64,
    pub pinned: bool,
    pub sort_order: i64,
}

/// What the metadata of a note holds, as mathematical values.
pub struct NoteMetadataView {
    pub id: Seq<char>,
    pub folder_id: Seq<char>,
    pub title: Seq<char>,
    pub preview: Seq<char>,
    pub created_at: i64,
    pub updated_at: i64,
    pub pinned: bool,
    pub sort_order: i64,
}

impl View for NoteMetadata {
    type V = NoteMetadataView;

    open spec fn view(&self) -> NoteMetadataView {
        NoteMetadataView {
            id: self.id@,
            folder_id: self.folder_id@,
            title: self.title@,
            preview: self.preview@,
            created_at: self.created_at,
            updated_at: self.updated_at,
            pinned: self.pinned,
            sort_order: self.sort_order,
        }
    }
}

/// The metadata of `n`.
pub open spec fn metadata_of(n: NoteView) -> NoteMetadataView {
    NoteMetadataView {
        id: n.id,
        folder_id: n.folder_id,
        title: n.title,
        preview: preview_of(n.body),
        created_at: n.created_at,
        updated_at: n.updated_at,
        pinned: n.pinned,
        sort_order: n.sort_order,
    }
}

/// The views of the metadata of `v`, in order.
pub open spec fn metadata_views(v: Seq<NoteMetadata>) -> Seq<NoteMetadataView> {
    Seq::new(v.len(), |i: int| v[i]@)
}

/// The texts of `v`, in order.
pub open spec fn text_views(v: Seq<String>) -> Seq<Seq<char>> {
    Seq::new(v.len(), |i: int| v[i]@)
}

/// The metadata of the notes with the ids given, in the order of the ids;
/// an id that no note has gives nothing.
pub open spec fn found_metadata(ns: Seq<NoteView>, ids: Seq<Seq<char>>) -> Seq<NoteMetadataView>
    decreases ids.len(),
{
    if ids.len() == 0 {
        Seq::empty()
    } else if has_note(ns, ids.last()) {
        found_metadata(ns, ids.drop_last()).push(metadata_of(ns[note_index(ns, ids.last())]))
    } else {
        found_metadata(ns, ids.drop_last())
    }
}

/// A full copy of the store at one moment.
#[derive(Clone, Debug, PartialEq, Eq)]
pub struct Snapshot {
    pub version: String,
    pub exported_at: i64,
    pub folders: Vec<Folder>,
    pub notes: Vec<Note>,
}

/// `m` is the latest time of update among the folders and notes.
pub open spec fn is_latest(s: StoreView, m: i64) -> bool {
    &&& forall|i: int| 0 <= i < s.folders.len() ==> (#[trigger] s.folders[i]).updated_at <= m
    &&& forall|i: int| 0 <= i < s.notes.len() ==> (#[trigger] s.notes[i]).updated_at <= m
    &&& ((exists|i: int| 0 <= i < s.folders.len() && (#[trigger] s.folders[i]).updated_at == m) || (
    exists|i: int| 0 <= i < s.notes.len() && (#[trigger] s.notes[i]).updated_at == m))
}

/// Why the note cannot be read, if it cannot.
pub open spec fn get_note_error(ns: Seq<NoteView>, id: Seq<char>) -> Option<StoreError> {
    if !safe_id(id) {
        Some(StoreError::InvalidNoteId)
    } else if !has_note(ns, id) {
        Some(StoreError::NoteNotFound)
    } else {
        None
    }
}

impl Store {
    /// The note with the id, body included, and the name of its folder.
    pub fn get_note(&self, id: &str) -> (r: Result<NoteDetail, StoreError>)
        requires
            self.wf(),
        ensures
            match get_note_error(self@.notes, id@) {
                Some(e) => r matches Err(got) && got == e,
                None => {
                    &&& r matches Ok(d)
                    &&& d.note@ == self@.notes[note_index(self@.notes, id@)]
                    &&& d.folder_name@ == folder_of(self@.folders, d.note@.folder_id).name
                },
            },
    {
        if !is_safe_id(id) {
            return Err(StoreError::InvalidNoteId);
        }
        let i = match self.find_note(id) {
            Some(i) => i,
            None => {
                return Err(StoreError::NoteNotFound);
            },
        };
        assert(self@.notes[i as int] == self.notes@[i as int]@);
        let note = self.notes[i].clone();
        let folder_name = match self.find_folder(note.folder_id.as_str()) {
            Some(f) => {
                assert(self@.folders[f as int] == self.folders@[f as int]@);
                self.folders[f].name.clone()
            },
            None => {
                assert(false);
                String::new()
            },
        };
        Ok(NoteDetail { note, folder_name })
    }

    /// The body of the note with the id.
    pub fn get_note_body(&self, id: &str) -> (r: Option<String>)
        requires
            self.wf(),
        ensures
            match r {
                Some(body) => has_note(self@.notes, id@) && body@ == self@.notes[note_index(
                    self@.notes,
                    id@,
                )].body,
                None => !has_note(self@.notes, id@),
            },
    {
        match self.find_note(id) {
            Some(i) => {
                assert(self@.notes[i as int] == self.notes@[i as int]@);
                Some(self.notes[i].body.clone())
            },
            None => None,
        }
    }

    /// All notes, in the order in which they were filed.
    pub fn get_notes_all(&self) -> (r: Vec<Note>)
        ensures
            note_views(r@) == self@.notes,
    {
        let mut out: Vec<Note> = Vec::new();
        let mut i: usize = 0;
        while i < self.notes.len()
            invariant
                i <= self.notes.len(),
                note_views(out@) == self@.notes.take(i as int),
            decreases self.notes.len() - i,
        {
            let n = self.notes[i].clone();
            proof {
                lemma_note_views_push(out@, n);
            }
            out.push(n);
            assert(note_views(out@) =~= self@.notes.take(i + 1));
            i += 1;
        }
        assert(self@.notes.take(i as int) =~= self@.notes);
        out
    }

    /// The metadata of all notes, in the order in which they were filed.
    pub fn get_notes_metadata(&self) -> (r: Vec<NoteMetadata>)
        ensures
            r.len() == self@.notes.len(),
            forall|i: int| 0 <= i < r.len() ==> (#[trigger] r[i])@ == metadata_of(self@.notes[i]),
    {
        let mut out: Vec<NoteMetadata> = Vec::new();
        let mut i: usize = 0;
        while i < self.notes.len()
            invariant
                i <= self.notes.len(),
                out.len() == i,
                forall|j: int| 0 <= j < i ==> (#[trigger] out[j])@ == metadata_of(self@.notes[j]),
            decreases self.notes.len() - i,
        {
            let n = &self.notes[i];
            assert(self@.notes[i as int] == n@);
            out.push(
                NoteMetadata {
                    id: n.id.clone(),
                    folder_id: n.folder_id.clone(),
                    title: n.title.clone(),
                    preview: preview(n.body.as_str()),
                    created_at: n.created_at,
                    updated_at: n.updated_at,
                    pinned: n.pinned,
                    sort_order: n.sort_order,
                },
            );
            i += 1;
        }
        out
    }

    /// The metadata of the notes with the ids given, in the order of the
    /// ids; an id that no note has gives nothing.
    pub fn metadata_of_notes(&self, ids: &Vec<String>) -> (r: Vec<NoteMetadata>)
        requires
            self.wf(),
        ensures
            metadata_views(r@) == found_metadata(self@.notes, text_views(ids@)),
    {
        let ghost wanted = text_views(ids@);
        let mut out: Vec<NoteMetadata> = Vec::new();
        let mut i: usize = 0;
        assert(wanted.take(0).len() == 0);
        assert(metadata_views(out@) =~= found_metadata(self@.notes, wanted.take(0)));
        while i < ids.len()
            invariant
                i <= ids.len(),
                self.wf(),
                wanted == text_views(ids@),
                metadata_views(out@) == found_metadata(self@.notes, wanted.take(i as int)),
            decreases ids.len() - i,
        {
            proof {
                let head = wanted.take(i + 1);
                assert(head.drop_last() =~= wanted.take(i as int));
                assert(head.last() == ids@[i as int]@);
            }
            match self.find_note(ids[i].as_str()) {
                Some(k) => {
                    let n = &self.notes[k];
                    assert(self@.notes[k as int] == n@);
                    let m = NoteMetadata {
                        id: n.id.clone(),
                        folder_id: n.folder_id.clone(),
                        title: n.title.clone(),
                        preview: preview(n.body.as_str()),
                        created_at: n.created_at,
                        updated_at: n.updated_at,
                        pinned: n.pinned,
                        sort_order: n.sort_order,
                    };
                    let ghost before = metadata_views(out@);
                    out.push(m);
                    assert(metadata_views(out@) =~= before.push(m@));
                },
                None => {},
            }
            i += 1;
        }
        assert(wanted.take(i as int) =~= wanted);
        out
    }

    /// A full copy of the store, stamped with `now`.
    pub fn export_snapshot(&self, now: i64) -> (r: Snapshot)
        ensures
            r.version@ == "1.0"@,
            r.exported_at == now,
            folder_views(r.folders@) == self@.folders,
            note_views(r.notes@) == self@.notes,
    {
        Snapshot {
            version: "1.0".to_owned(),
            exported_at: now,
            folders: self.list_folders(),
            notes: self.get_notes_all(),
        }
    }

    /// The latest time of update among all folders and notes; `None` for a
    /// store that holds neither.
    pub fn sync_token(&self) -> (r: Option<i64>)
        ensures
            match r {
                Some(m) => is_latest(self@, m),
                None => self@.folders.len() == 0 && self@.notes.len() == 0,
            },
    {
        let mut best: Option<i64> = None;
        let mut i: usize = 0;
        while i < self.folders.len()
            invariant
                i <= self.folders.len(),
                best is None ==> i == 0,
                best matches Some(m) ==> {
                    &&& forall|j: int| 0 <= j < i ==> (#[trigger] self@.folders[j]).updated_at <= m
                    &&& exists|j: int| 0 <= j < i && (#[trigger] self@.folders[j]).updated_at == m
                },
            decreases self.folders.len() - i,
        {
            let t = self.folders[i].updated_at;
            assert(self@.folders[i as int] == self.folders@[i as int]@);
            best = match best {
                Some(m) => if t > m {
                    Some(t)
                } else {
                    Some(m)
                },
                None => Some(t),
            };
            assert(self@.folders[i as int].updated_at == t);
            i += 1;
        }
        let mut k: usize = 0;
        while k < self.notes.len()
            invariant
                k <= self.notes.len(),
                best is None ==> k == 0 && self@.folders.len() == 0,
                best matches Some(m) ==> {
                    &&& forall|j: int|
                        0 <= j < self@.folders.len() ==> (#[trigger] self@.folders[j]).updated_at
                            <= m
                    &&& forall|j: int| 0 <= j < k ==> (#[trigger] self@.notes[j]).updated_at <= m
                    &&& ((exists|j: int|
                        0 <= j < self@.folders.len() && (#[trigger] self@.folders[j]).updated_at
                            == m) || (exists|j: int|
                        0 <= j < k && (#[trigger] self@.notes[j]).updated_at == m))
                },
            decreases self.notes.len() - k,
        {
            let t = self.notes[k].updated_at;
            assert(self@.notes[k as int] == self.notes@[k as int]@);
            best = match best {
                Some(m) => if t > m {
                    Some(t)
                } else {
                    Some(m)
                },
                None => Some(t),
            };
            assert(self@.notes[k as int].updated_at == t);
            k += 1;
        }
        best
    }
}

} // verus!
